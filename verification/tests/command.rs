use gh_actui::command::{
    command_path, insert_char, load_command_history, parse_command, parse_delete_command,
    record_command, remove_char, save_command_history, Command, MAX_COMMAND_HISTORY,
};
use gh_actui::panes::{parse_amount, ResizeAmount};
use gh_actui::text::{
    join, lines, number_text, parse_signed, parse_unsigned, precedes, rsplit_once, signed_text,
    sort_dedup, split, split_once, split_whitespace, trim, CharClass,
};

fn some(text: &str) -> Option<String> {
    Some(text.to_owned())
}

#[test]
fn commands_are_read_with_their_argument() {
    assert_eq!(parse_command("q"), Command::Quit);
    assert_eq!(parse_command("q now"), Command::Unknown);
    assert_eq!(parse_command(""), Command::Nothing);
    assert_eq!(parse_command("w"), Command::Write { path: None });
    assert_eq!(
        parse_command("w  a b "),
        Command::Write { path: some("a b") }
    );
    assert_eq!(
        parse_command("wq\tx"),
        Command::WriteQuit { path: some("x") }
    );
    assert_eq!(parse_command("e x"), Command::Edit { path: some("x") });
    assert_eq!(parse_command("refresh"), Command::Refresh);
    assert_eq!(parse_command("refresh x"), Command::Unknown);
    assert_eq!(
        parse_command("refresh-rate 5"),
        Command::RefreshRate { seconds: some("5") }
    );
    assert_eq!(
        parse_command("filter a:b c"),
        Command::Filter {
            expression: some("a:b c")
        }
    );
    assert_eq!(
        parse_command("sort"),
        Command::Sort {
            specification: None
        }
    );
    assert_eq!(
        parse_command("split vertical"),
        Command::Split {
            direction: some("vertical")
        }
    );
    assert_eq!(
        parse_command("resize equal"),
        Command::Resize {
            amount: some("equal")
        }
    );
    assert_eq!(
        parse_command("tabnew a b"),
        Command::TabNew { name: some("a b") }
    );
    assert_eq!(
        parse_command("tabsetname a"),
        Command::TabSetName { name: some("a") }
    );
    assert_eq!(parse_command("triage"), Command::Triage);
    for command in ["tabnext", "tabn"] {
        assert_eq!(parse_command(command), Command::TabNext);
    }
    for command in ["tabprevious", "tabp"] {
        assert_eq!(parse_command(command), Command::TabPrevious);
    }
    for command in ["tabclose", "tabc"] {
        assert_eq!(parse_command(command), Command::TabClose);
    }
    for command in ["tabn x", "triage now", "dd", "d 3", "Q", "quit"] {
        assert_eq!(parse_command(command), Command::Unknown, "{command}");
    }
}

#[test]
fn deletions_are_read_with_their_count() {
    assert_eq!(parse_delete_command("d"), Some(Ok(1)));
    assert_eq!(parse_delete_command("d012"), Some(Ok(12)));
    assert_eq!(
        parse_delete_command("d0"),
        Some(Err("E16: Invalid range".to_owned()))
    );
    assert_eq!(
        parse_delete_command("d99999999999999999999"),
        Some(Err(
            "E488: Trailing characters: 99999999999999999999".to_owned()
        ))
    );
    assert_eq!(parse_delete_command("d3x"), None);
    assert_eq!(parse_delete_command("x"), None);
    assert_eq!(parse_command("d3"), Command::Delete { count: 3 });
    assert_eq!(
        parse_command("d00"),
        Command::BadDelete {
            message: "E16: Invalid range".to_owned()
        }
    );
}

#[test]
fn paths_are_given_or_remembered() {
    assert_eq!(
        command_path(&some("a"), &some("b")),
        Ok("a".to_owned())
    );
    assert_eq!(command_path(&None, &some("b")), Ok("b".to_owned()));
    assert_eq!(command_path(&some(""), &some("b")), Ok("b".to_owned()));
    assert_eq!(
        command_path(&None, &None),
        Err("E32: No file name".to_owned())
    );
}

#[test]
fn characters_are_counted_not_bytes() {
    assert_eq!(insert_char("äö", 1, 'ß'), "äßö");
    assert_eq!(insert_char("", 0, 'a'), "a");
    assert_eq!(remove_char("äßö", 1), "äö");
    assert_eq!(remove_char("a", 0), "");
}

#[test]
fn the_history_keeps_the_latest_commands() {
    let mut history = Vec::new();
    for index in 0..MAX_COMMAND_HISTORY + 3 {
        record_command(&mut history, format!("c{index}"));
    }
    assert_eq!(history.len(), MAX_COMMAND_HISTORY);
    assert_eq!(history[0], "c3");
    let last = history.last().unwrap().clone();
    record_command(&mut history, last);
    assert_eq!(history[0], "c3");
}

#[test]
fn the_history_survives_its_file() {
    let history = vec!["sort name".to_owned(), "q".to_owned()];
    assert_eq!(save_command_history(&history), "sort name\nq\n");
    assert_eq!(
        load_command_history(&save_command_history(&history)),
        history
    );
    assert_eq!(save_command_history(&Vec::new()), "");
    assert_eq!(load_command_history(" a \r\n\n \nb"), ["a", "b"]);
}

#[test]
fn resize_amounts_are_read_with_their_sign() {
    assert_eq!(parse_amount("12"), Some(ResizeAmount::Absolute(12)));
    assert_eq!(parse_amount("+3"), Some(ResizeAmount::Delta(3)));
    assert_eq!(parse_amount("-3"), Some(ResizeAmount::Delta(-3)));
    assert_eq!(parse_amount("--3"), Some(ResizeAmount::Delta(3)));
    assert_eq!(parse_amount("++3"), Some(ResizeAmount::Delta(3)));
    assert_eq!(parse_amount("+-3"), Some(ResizeAmount::Delta(-3)));
    for amount in ["", "0", "+0", "-0", "x", "65536", "+32768", "--32768"] {
        assert_eq!(parse_amount(amount), None, "{amount}");
    }
    assert_eq!(parse_amount("65535"), Some(ResizeAmount::Absolute(65535)));
    assert_eq!(
        parse_amount("+-32768"),
        Some(ResizeAmount::Delta(-32768))
    );
}

#[test]
fn texts_are_cut_as_lines_words_and_pieces() {
    assert_eq!(lines("a\r\nb\n\nc\r"), ["a", "b", "", "c\r"]);
    assert!(lines("").is_empty());
    assert_eq!(split_whitespace(" a\u{a0}b\t c "), ["a", "b", "c"]);
    assert_eq!(split("a,,b", CharClass::Is(',')), ["a", "", "b"]);
    assert_eq!(split("", CharClass::Is(',')), [""]);
    assert_eq!(trim("\u{2003} a b\n"), "a b");
    assert_eq!(
        split_once("a::b::c", "::"),
        Some(("a".to_owned(), "b::c".to_owned()))
    );
    assert_eq!(
        rsplit_once("a::b::c", "::"),
        Some(("a::b".to_owned(), "c".to_owned()))
    );
    assert_eq!(split_once("abc", "::"), None);
    assert_eq!(join(&vec!["a".to_owned(), "b".to_owned()], ", "), "a, b");
}

#[test]
fn numbers_are_written_and_read() {
    assert_eq!(number_text(0), "0");
    assert_eq!(number_text(u64::MAX), "18446744073709551615");
    assert_eq!(signed_text(-17), "-17");
    assert_eq!(signed_text(i64::MIN), "-9223372036854775808");
    assert_eq!(parse_unsigned("+42", 100), Some(42));
    assert_eq!(parse_unsigned("101", 100), None);
    assert_eq!(parse_unsigned("-0", 100), None);
    assert_eq!(parse_unsigned("", 100), None);
    assert_eq!(parse_unsigned("+", 100), None);
    assert_eq!(parse_signed("-9223372036854775808", i64::MAX), Some(i64::MIN));
    assert_eq!(parse_signed("9223372036854775808", i64::MAX), None);
    assert_eq!(parse_signed("-", i64::MAX), None);
}

#[test]
fn texts_are_ordered_by_their_characters() {
    assert!(precedes("a", "b"));
    assert!(precedes("a", "ab"));
    assert!(!precedes("ab", "ab"));
    assert!(precedes("Z", "a"));
    assert!(precedes("\u{ffff}", "\u{10000}"));
    assert_eq!(
        sort_dedup(&vec!["b".to_owned(), "a".to_owned(), "b".to_owned()]),
        ["a", "b"]
    );
}
