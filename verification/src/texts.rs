//! What the operations on texts come to.
use vstd::prelude::*;
use vstd::string::*;

use crate::text::{self, CharClass};

verus! {

/// Whether a part of a text is all of it but for the characters of a class at its ends.
pub open spec fn is_core(s: Seq<char>, class: CharClass, i: int, j: int) -> bool {
    &&& 0 <= i <= j <= s.len()
    &&& forall|k: int| 0 <= k < i ==> class.has(#[trigger] s[k])
    &&& forall|k: int| j <= k < s.len() ==> class.has(#[trigger] s[k])
    &&& i < j ==> !class.has(s[i]) && !class.has(s[j - 1])
}

proof fn lemma_start(s: Seq<char>, class: CharClass) -> (i: int)
    ensures
        0 <= i <= s.len(),
        text::trim_start_of(s, class) == s.skip(i),
        forall|k: int| 0 <= k < i ==> class.has(#[trigger] s[k]),
        i < s.len() ==> !class.has(s[i]),
    decreases s.len(),
{
    if s.len() > 0 && class.has(s[0]) {
        let rest = s.skip(1);
        let i = lemma_start(rest, class);
        assert(rest.skip(i) =~= s.skip(i + 1));
        assert forall|k: int| 0 <= k < i + 1 implies class.has(#[trigger] s[k]) by {
            if k > 0 {
                assert(rest[k - 1] == s[k]);
            }
        }
        i + 1
    } else {
        assert(s.skip(0) =~= s);
        0
    }
}

proof fn lemma_end(s: Seq<char>, class: CharClass) -> (j: int)
    ensures
        0 <= j <= s.len(),
        text::trim_end_of(s, class) == s.take(j),
        forall|k: int| j <= k < s.len() ==> class.has(#[trigger] s[k]),
        j > 0 ==> !class.has(s[j - 1]),
    decreases s.len(),
{
    if s.len() > 0 && class.has(s.last()) {
        let front = s.drop_last();
        let j = lemma_end(front, class);
        assert(front.take(j) =~= s.take(j));
        assert forall|k: int| j <= k < s.len() implies class.has(#[trigger] s[k]) by {
            if k < front.len() {
                assert(front[k] == s[k]);
            }
        }
        j
    } else {
        assert(s.take(s.len() as int) =~= s);
        s.len() as int
    }
}

/// Trimming takes the blanks at both ends off a text, and nothing else.
pub proof fn law_trimming_takes_ends_off(s: Seq<char>, class: CharClass)
    ensures
        exists|i: int, j: int|
            #[trigger] is_core(s, class, i, j) && text::trim_of(s, class) == s.subrange(i, j),
        text::trimmed(s) == text::trim_of(s, CharClass::Space),
{
    let i = lemma_start(s, class);
    let rest = s.skip(i);
    let j = lemma_end(rest, class);
    assert(rest.take(j) =~= s.subrange(i, i + j));
    assert forall|k: int| i + j <= k < s.len() implies class.has(#[trigger] s[k]) by {
        assert(rest[k - i] == s[k]);
    }
    if j > 0 {
        assert(rest[j - 1] == s[i + j - 1]);
    }
    assert(is_core(s, class, i, i + j));
}

/// A text between blanks is what is left when they are trimmed off.
pub proof fn law_trimming_leaves_core(s: Seq<char>, class: CharClass, i: int, j: int)
    requires
        is_core(s, class, i, j),
        i < j,
    ensures
        text::trim_of(s, class) == s.subrange(i, j),
{
    law_trimming_takes_ends_off(s, class);
    let (a, b) = choose|a: int, b: int|
        #[trigger] is_core(s, class, a, b) && text::trim_of(s, class) == s.subrange(a, b);
    assert(a == i && b == j) by {
        if a > i {
            assert(class.has(s[i]));
        }
        if b < j {
            assert(class.has(s[j - 1]));
        }
        if a < i {
            assert(class.has(s[a]));
        }
        if b > j {
            assert(class.has(s[b - 1]));
        }
    }
}

/// A text is cut at the first place where the other stands, and the cut takes that alone out.
pub proof fn law_cut_is_at_first(a: Seq<char>, p: Seq<char>, b: Seq<char>)
    requires
        forall|k: int| 0 <= k < a.len() ==> !text::occurs_at(a + p + b, p, k),
    ensures
        text::cut_first(a + p + b, p) == Some((a, b)),
{
    let s = a + p + b;
    let at = a.len() as int;
    assert(s.subrange(at, at + p.len()) =~= p);
    assert(text::occurs_at(s, p, at));
    text::lemma_first_from(s, p, 0);
    assert(text::first_at(s, p) == Some(at));
    assert(s.take(at) =~= a);
    assert(s.skip(at + p.len()) =~= b);
}

/// A text is cut at the last place where the other stands, and the cut takes that alone out.
pub proof fn law_cut_is_at_last(a: Seq<char>, p: Seq<char>, b: Seq<char>)
    requires
        forall|k: int| a.len() < k ==> !text::occurs_at(a + p + b, p, k),
    ensures
        text::cut_last(a + p + b, p) == Some((a, b)),
{
    let s = a + p + b;
    let at = a.len() as int;
    assert(s.subrange(at, at + p.len()) =~= p);
    assert(text::occurs_at(s, p, at));
    text::lemma_last_upto(s, p, s.len() as int);
    assert(text::last_at(s, p) == Some(at));
    assert(s.take(at) =~= a);
    assert(s.skip(at + p.len()) =~= b);
}

/// A text is cut nowhere exactly where it does not hold the other.
pub proof fn law_uncut_holds_none(s: Seq<char>, p: Seq<char>)
    ensures
        text::cut_first(s, p) is None <==> !(exists|k: int| text::occurs_at(s, p, k)),
        text::cut_last(s, p) is None <==> !(exists|k: int| text::occurs_at(s, p, k)),
{
    text::lemma_first_from(s, p, 0);
    text::lemma_last_upto(s, p, s.len() as int);
}

/// Joined texts are the first one, the separator, and the others joined.
pub proof fn lemma_joined_front(x: Seq<char>, rest: Seq<Seq<char>>, sep: Seq<char>)
    requires
        rest.len() > 0,
    ensures
        text::joined(seq![x] + rest, sep) == x + sep + text::joined(rest, sep),
    decreases rest.len(),
{
    let all = seq![x] + rest;
    assert(all.last() == rest.last());
    if rest.len() == 1 {
        assert(all.drop_last() =~= seq![x]);
        assert(text::joined(seq![x], sep) == x);
    } else {
        assert(all.drop_last() =~= seq![x] + rest.drop_last());
        lemma_joined_front(x, rest.drop_last(), sep);
        assert(x + sep + text::joined(rest.drop_last(), sep) + sep + rest.last() =~= x + sep + (
        text::joined(rest.drop_last(), sep) + sep + rest.last()));
    }
}

/// Texts that are joined hold all of them in order, with the separator between each two.
pub proof fn law_joining_keeps_texts(list: Seq<Seq<char>>, t: Seq<char>, sep: Seq<char>)
    ensures
        list.len() == 0 ==> text::joined(list, sep) == Seq::<char>::empty(),
        list.len() == 0 ==> text::joined(list.push(t), sep) == t,
        list.len() > 0 ==> text::joined(list.push(t), sep) == text::joined(list, sep) + sep + t,
        list.len() > 0 ==> text::joined(seq![t] + list, sep) == t + sep + text::joined(list, sep),
{
    assert(list.push(t).drop_last() =~= list);
    if list.len() > 0 {
        lemma_joined_front(t, list, sep);
    }
}

/// The pieces of a text hold no separator, and joined by it they are the text.
pub proof fn law_pieces_join(s: Seq<char>, c: char)
    ensures
        text::joined(text::pieces(s, CharClass::Is(c)), seq![c]) == s,
        forall|n: int, k: int|
            0 <= n < text::pieces(s, CharClass::Is(c)).len() && 0 <= k < text::pieces(
                s,
                CharClass::Is(c),
            )[n].len() ==> #[trigger] text::pieces(s, CharClass::Is(c))[n][k] != c,
        text::pieces(s, CharClass::Is(c)).len() > 0,
    decreases s.len(),
{
    let class = CharClass::Is(c);
    let at = text::class_from(s, class, 0);
    let all = text::pieces(s, class);
    text::lemma_class_from(s, class, 0);
    if at < s.len() {
        let rest = s.skip(at + 1);
        law_pieces_join(rest, c);
        let tail = text::pieces(rest, class);
        lemma_joined_front(s.take(at), tail, seq![c]);
        assert(s.take(at) + seq![c] + rest =~= s);
        assert forall|n: int, k: int| 0 <= n < all.len() && 0 <= k < all[n].len() implies
            #[trigger] all[n][k] != c by {
            if n > 0 {
                assert(all[n] == tail[n - 1]);
                assert(tail[n - 1][k] != c);
            } else {
                assert(all[0][k] == s[k]);
            }
        }
    } else {
        assert(all == seq![s]);
        assert forall|n: int, k: int| 0 <= n < all.len() && 0 <= k < all[n].len() implies
            #[trigger] all[n][k] != c by {
            assert(all[n][k] == s[k]);
        }
    }
}

/// Whether a text holds no end of a line.
pub open spec fn is_line(t: Seq<char>) -> bool {
    forall|k: int| 0 <= k < t.len() ==> #[trigger] t[k] != '\n' && t[k] != '\r'
}

/// Lines that are joined are split into the same lines, whether they end as on one system or as
/// on another, and whether the last one has an end or not.
pub proof fn law_lines_are_split(lines: Seq<Seq<char>>)
    requires
        forall|n: int| 0 <= n < lines.len() ==> is_line(#[trigger] lines[n]),
        lines.len() > 0,
        lines.last().len() > 0,
    ensures
        text::lines_of(text::joined(lines, "\n"@)) == lines,
        text::lines_of(text::joined(lines, "\r\n"@)) == lines,
        text::lines_of(text::joined(lines, "\n"@) + "\n"@) == lines,
        text::lines_of(Seq::empty()) == Seq::<Seq<char>>::empty(),
    decreases lines.len(),
{
    reveal_strlit("\n");
    reveal_strlit("\r\n");
    let none = Seq::<char>::empty();
    let x = lines[0];
    assert(is_line(x));
    let class = CharClass::Is('\n');
    if lines.len() == 1 {
        assert(lines =~= seq![x]);
        text::lemma_class_from(x, class, 0);
        let ended = x + "\n"@;
        text::lemma_class_from(ended, class, 0);
        let at = text::class_from(ended, class, 0);
        assert(ended[x.len() as int] == '\n');
        if at < x.len() {
            assert(ended[at] == x[at]);
        }
        assert(at == x.len());
        assert(ended.take(at) =~= x);
        assert(ended.skip(at + 1) =~= none);
        assert(text::without_return(x) == x) by {
            assert(x.last() == x[x.len() - 1]);
        }
        assert(seq![x] + text::lines_of(none) =~= lines);
    } else {
        let rest = lines.skip(1);
        assert(lines =~= seq![x] + rest);
        assert(rest.last() == lines.last());
        assert forall|n: int| 0 <= n < rest.len() implies is_line(#[trigger] rest[n]) by {
            assert(rest[n] == lines[n + 1]);
        }
        law_lines_are_split(rest);
        lemma_joined_front(x, rest, "\n"@);
        lemma_joined_front(x, rest, "\r\n"@);
        lemma_first_line(x, "\n"@, text::joined(rest, "\n"@));
        lemma_first_line(x, "\r\n"@, text::joined(rest, "\r\n"@));
        lemma_first_line(x, "\n"@, text::joined(rest, "\n"@) + "\n"@);
        assert(x + "\n"@ + (text::joined(rest, "\n"@) + "\n"@) =~= x + "\n"@ + text::joined(
            rest,
            "\n"@,
        ) + "\n"@);
    }
}

proof fn lemma_first_line(x: Seq<char>, end: Seq<char>, rest: Seq<char>)
    requires
        is_line(x),
        end == "\n"@ || end == "\r\n"@,
    ensures
        text::lines_of(x + end + rest) == seq![x] + text::lines_of(rest),
{
    reveal_strlit("\n");
    reveal_strlit("\r\n");
    let s = x + end + rest;
    let class = CharClass::Is('\n');
    text::lemma_class_from(s, class, 0);
    let at = text::class_from(s, class, 0);
    let place = x.len() + end.len() - 1;
    assert(s[place] == '\n');
    if at < x.len() {
        assert(s[at] == x[at]);
    }
    assert(at == place);
    assert(s.skip(at + 1) =~= rest);
    if end == "\n"@ {
        assert(s.take(at) =~= x);
        if x.len() > 0 {
            assert(x.last() == x[x.len() - 1]);
        }
    } else {
        assert(s.take(at) =~= x.push('\r'));
        assert(x.push('\r').drop_last() =~= x);
    }
}

/// Whether a text is one word.
pub open spec fn is_one_word(t: Seq<char>) -> bool {
    t.len() > 0 && forall|k: int| 0 <= k < t.len() ==> !text::is_space(#[trigger] t[k])
}

/// Words that are joined by blanks are split into the same words.
pub proof fn law_words_are_split(words: Seq<Seq<char>>)
    requires
        forall|n: int| 0 <= n < words.len() ==> is_one_word(#[trigger] words[n]),
    ensures
        text::words_of(text::joined(words, " "@)) == words,
    decreases words.len(),
{
    reveal_strlit(" ");
    let class = CharClass::Space;
    let none = Seq::<char>::empty();
    if words.len() == 0 {
        assert(text::trim_start_of(none, class) == none);
    } else {
        let x = words[0];
        assert(is_one_word(x));
        let rest = words.skip(1);
        assert(words =~= seq![x] + rest);
        assert forall|n: int| 0 <= n < rest.len() implies is_one_word(#[trigger] rest[n]) by {
            assert(rest[n] == words[n + 1]);
        }
        law_words_are_split(rest);
        let behind = if rest.len() == 0 {
            none
        } else {
            " "@ + text::joined(rest, " "@)
        };
        let s = x + behind;
        if rest.len() == 0 {
            assert(words =~= seq![x]);
            assert(s =~= x);
        } else {
            lemma_joined_front(x, rest, " "@);
            assert(x + " "@ + text::joined(rest, " "@) =~= s);
        }
        assert(s[0] == x[0]);
        assert(text::trim_start_of(s, class) == s);
        text::lemma_class_from(s, class, 0);
        let at = text::class_from(s, class, 0);
        if at < x.len() {
            assert(s[at] == x[at]);
        }
        if rest.len() > 0 {
            assert(s[x.len() as int] == ' ');
            assert(text::is_space(' '));
        }
        assert(at == x.len());
        assert(s.take(at) =~= x);
        assert(s.skip(at) =~= behind);
        if rest.len() > 0 {
            assert(behind[0] == ' ');
            assert(behind.skip(1) =~= text::joined(rest, " "@));
            assert(text::trim_start_of(behind, class) == text::trim_start_of(
                text::joined(rest, " "@),
                class,
            ));
            assert(text::words_of(behind) == text::words_of(text::joined(rest, " "@)));
        } else {
            assert(rest =~= Seq::<Seq<char>>::empty());
        }
    }
}

/// A number is written in decimal digits without leading zeros, the digit of lowest value last.
pub proof fn law_numbers_are_decimal(n: nat, d: nat)
    requires
        d < 10,
    ensures
        text::decimal(d) == seq!["0123456789"@[d as int]],
        n > 0 ==> text::decimal(10 * n + d) == text::decimal(n).push("0123456789"@[d as int]),
        n > 0 ==> text::decimal(n)[0] != '0',
        n > 0 ==> text::decimal_int(-n) == "-"@ + text::decimal(n),
        text::decimal_int(n as int) == text::decimal(n),
    decreases n,
{
    reveal_strlit("0123456789");
    reveal_strlit("-");
    assert(text::digit_char(d) == "0123456789"@[d as int]);
    if n > 0 {
        assert((10 * n + d) / 10 == n);
        assert((10 * n + d) % 10 == d);
        if n >= 10 {
            law_numbers_are_decimal(n / 10, n % 10);
            text::lemma_decimal(n / 10);
        } else {
            assert(text::digit_char(n) != '0');
        }
    }
}

/// A number that is written is read again, where it is not too great; a text that is not made of
/// digits is no number.
pub proof fn law_written_numbers_are_read(n: nat, max: nat)
    ensures
        text::read_unsigned(text::decimal(n), max) == (if n <= max {
            Some(n)
        } else {
            None
        }),
        text::read_signed(text::decimal_int(n as int), max) == (if n <= max {
            Some(n as int)
        } else {
            None
        }),
        n > 0 ==> text::read_signed(text::decimal_int(-n), max) == (if n <= max + 1 {
            Some(-(n as int))
        } else {
            None
        }),
        text::read_unsigned(Seq::empty(), max) is None,
        text::read_signed(Seq::empty(), max) is None,
{
    reveal_strlit("-");
    text::lemma_decimal(n);
    assert(text::is_digit(text::decimal(n)[0]));
    if n > 0 {
        let s = "-"@ + text::decimal(n);
        assert(s[0] == '-');
        assert(s.skip(1) =~= text::decimal(n));
    }
}

/// No text with a character that is not a digit is read as a number, but for a sign at its start.
pub proof fn law_only_digits_are_read(s: Seq<char>, k: int, max: nat)
    requires
        0 <= k < s.len(),
        !('0' <= s[k] <= '9'),
        k > 0 || (s[k] != '+' && s[k] != '-'),
    ensures
        text::read_unsigned(s, max) is None,
        text::read_signed(s, max) is None,
{
    if k > 0 {
        assert(s.skip(1)[k - 1] == s[k]);
    }
    if text::all_digits(s) {
        assert(text::is_digit(s[k]));
    }
    if text::all_digits(s.skip(1)) && k > 0 {
        assert(text::is_digit(s.skip(1)[k - 1]));
    }
}

/// Texts are ordered by the first character in which they differ; a text comes before all that go
/// on behind it.
pub proof fn law_texts_are_ordered(common: Seq<char>, a: Seq<char>, b: Seq<char>)
    requires
        a.len() > 0,
        b.len() > 0,
        a[0] != b[0],
    ensures
        text::text_less(common + a, common + b) == (a[0] < b[0]),
        text::text_less(common, common + a),
        !text::text_less(common + a, common),
        !text::text_less(common, common),
    decreases common.len(),
{
    if common.len() == 0 {
        assert(common + a =~= a);
        assert(common + b =~= b);
    } else {
        let rest = common.skip(1);
        law_texts_are_ordered(rest, a, b);
        assert((common + a).skip(1) =~= rest + a);
        assert((common + b).skip(1) =~= rest + b);
        assert((common + a)[0] == common[0]);
        assert((common + b)[0] == common[0]);
    }
}

/// Texts in order are all that are in the list, each once, and each before those behind it.
pub proof fn law_texts_are_sorted_once(list: Seq<Seq<char>>, t: Seq<char>, i: int, j: int)
    ensures
        text::sorted_texts(list).contains(t) == list.contains(t),
        0 <= i < j < text::sorted_texts(list).len() ==> text::text_less(
            text::sorted_texts(list)[i],
            text::sorted_texts(list)[j],
        ) && text::sorted_texts(list)[i] != text::sorted_texts(list)[j],
{
    text::lemma_sorted_texts(list);
    let sorted = text::sorted_texts(list);
    if 0 <= i < j < sorted.len() {
        assert(text::text_less(sorted[i], sorted[j]));
        text::lemma_text_less_total(sorted[i], sorted[j]);
    }
}

/// Letters of ASCII are made small one by one, and nothing else in an ASCII text changes.
pub proof fn law_ascii_is_made_small(s: Seq<char>, k: int)
    requires
        text::ascii(s),
        0 <= k < s.len(),
    ensures
        text::lowercase(s).len() == s.len(),
        'A' <= s[k] <= 'Z' ==> text::lowercase(s)[k] as u32 == s[k] as u32 + 32,
        !('A' <= s[k] <= 'Z') ==> text::lowercase(s)[k] == s[k],
{
}

/// Of the characters of ASCII the blank, the tabulators, the line and form feeds and the carriage
/// return are blanks, the letters and the digits are alphanumeric, and both kinds of quotes are
/// quotes.
pub proof fn law_characters_have_classes(c: char, d: char)
    requires
        c <= '\u{7f}',
    ensures
        CharClass::Space.has(c) <==> c == ' ' || c == '\t' || c == '\n' || c == '\u{b}' || c
            == '\u{c}' || c == '\r',
        CharClass::Quote.has(c) <==> c == '"' || c == '\'',
        CharClass::NotAlphanumeric.has(c) <==> !('a' <= c <= 'z' || 'A' <= c <= 'Z' || '0' <= c
            <= '9'),
        CharClass::Is(d).has(c) <==> c == d,
        text::is_digit(c) <==> '0' <= c <= '9',
{
}

} // verus!
