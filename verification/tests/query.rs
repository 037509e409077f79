use gh_actui::github::{RunCounts, RunMetrics, RunStatus, Workflow};
use gh_actui::query::{
    comparison, compare_optional, compare_scalar, eq_ignore_ascii_case, matches_value,
    metric_value, normalized, select_workflows, status_value, tokenize, wildcard_match,
    workflow_value, FilterExpression, Number, Numerals, Operator, Order, Scalar, SortSpec,
};
use gh_actui::readings::{operands, operands_of_value, texts_of_workflows};

fn workflow(name: &str, status: RunStatus, rate: RunCounts) -> Workflow {
    Workflow {
        id: name.len() as u64,
        name: name.to_owned(),
        path: String::new(),
        state: "active".to_owned(),
        run_status: status,
        is_in_progress: false,
        run_metrics: RunMetrics {
            last_24_hours: rate,
            last_7_days: rate,
            last_14_days: rate,
        },
    }
}

fn place(value: f64) -> Number {
    if value.is_nan() {
        return Number::NotANumber;
    }
    let bits = (value + 0.0).to_bits() as i64;
    Number::At(bits ^ (((bits >> 63) as u64) >> 1) as i64)
}

fn numerals(workflows: &Vec<Workflow>, filter: Option<&FilterExpression>) -> Numerals {
    let mut numerals = Numerals::new();
    for workflow in workflows {
        let metrics = workflow.run_metrics;
        for counts in [metrics.last_24_hours, metrics.last_7_days, metrics.last_14_days] {
            let rate = if counts.total == 0 {
                0.0
            } else {
                f64::from(counts.passed) / f64::from(counts.total) * 100.0
            };
            numerals
                .rates
                .push((counts.passed, counts.total, rate.to_string()));
        }
    }
    let mut texts = texts_of_workflows(workflows, &numerals);
    if let Some(filter) = filter {
        texts.extend(operands(filter));
    }
    for text in texts {
        if let Ok(value) = text.parse::<f64>() {
            numerals.readings.push((text, place(value)));
        }
    }
    numerals
}

fn counts(passed: u32, failed: u32, total: u32) -> RunCounts {
    RunCounts {
        passed,
        failed,
        total,
    }
}

fn holds(expression: &str, workflow: &Workflow) -> bool {
    let filter = FilterExpression::parse(expression).unwrap();
    let numerals = numerals(&vec![workflow.clone()], Some(&filter));
    filter.matches(workflow, &numerals)
}

fn names(workflows: &Vec<Workflow>, filter: Option<&str>, sort: Option<&str>) -> Vec<String> {
    let filter = filter.map(|expression| FilterExpression::parse(expression).unwrap());
    let sort = sort.map(|specification| SortSpec::parse(specification).unwrap());
    let numerals = numerals(workflows, filter.as_ref());
    select_workflows(workflows, filter.as_ref(), sort.as_ref(), &numerals)
        .into_iter()
        .map(|workflow| workflow.name.clone())
        .collect()
}

#[test]
fn filter_supports_github_style_clauses() {
    let workflow = workflow("Linux Build", RunStatus::Success, counts(8, 2, 10));

    for expression in [
        "Linux",
        "name:\"Linux Build\"",
        "name:*Build",
        "status:success,failure",
        "-status:failure",
        "has:24h.total",
        "24h.rate:>=80",
        "24h.pass:5..10",
    ] {
        assert!(holds(expression, &workflow));
    }
}

#[test]
fn filters_that_do_not_hold_are_told_apart() {
    let workflow = workflow("Linux Build", RunStatus::Success, counts(8, 2, 10));

    for expression in [
        "Windows",
        "inux",
        "name:Linux",
        "name:*Linux",
        "-status:success",
        "no:24h.total",
        "has:nothing",
        "24h.rate:>80",
        "24h.rate:<80",
        "24h.pass:9..*",
        "24h.pass:*..7",
        "unknown:x",
        "Linux status:failure",
        "is:failure",
    ] {
        assert!(!holds(expression, &workflow), "{expression}");
    }
    for expression in [
        "", "LINUX", "build", "name:*nux*", "name:linux*", "is:success", "no:nothing", "7d:80",
        "14d.fail:<=2", "24H-Rate:80..*", "state:SUCCESS", "24h.other:*",
    ] {
        assert!(holds(expression, &workflow), "{expression}");
    }
}

#[test]
fn comparisons_go_by_number_and_otherwise_by_text() {
    let mut few = workflow("9", RunStatus::Other, counts(9, 0, 9));
    assert!(holds("24h.pass:<10", &few));
    assert!(holds("name:<10", &few));
    assert!(!holds("name:<1x", &few));
    assert!(holds("name:>1X", &few));
    few.name = "NaN".to_owned();
    assert!(!holds("name:<10", &few));
    assert!(!holds("name:>=NaN", &few));
    assert!(holds("name:NaN", &few));
}

#[test]
fn select_workflows_sorts_numeric_fields() {
    let workflows = vec![
        workflow("Low", RunStatus::Failure, counts(1, 9, 10)),
        workflow("High", RunStatus::Success, counts(9, 1, 10)),
    ];
    let sort = SortSpec::parse("24h.rate:desc").unwrap();

    let numerals = numerals(&workflows, None);
    let selected = select_workflows(&workflows, None, Some(&sort), &numerals);

    assert_eq!(selected[0].name, "High");
}

#[test]
fn sorting_is_stable_and_puts_missing_values_last() {
    let workflows = vec![
        workflow("b", RunStatus::Success, counts(2, 0, 2)),
        workflow("c", RunStatus::Failure, counts(10, 0, 10)),
        workflow("A", RunStatus::Success, counts(10, 0, 20)),
        workflow("d", RunStatus::Other, counts(2, 0, 4)),
    ];

    assert_eq!(names(&workflows, None, Some("name")), ["A", "b", "c", "d"]);
    assert_eq!(
        names(&workflows, None, Some("name:DESC")),
        ["d", "c", "b", "A"]
    );
    assert_eq!(
        names(&workflows, None, Some("24h.pass")),
        ["b", "d", "c", "A"]
    );
    assert_eq!(
        names(&workflows, None, Some("24h.pass:desc")),
        ["c", "A", "b", "d"]
    );
    assert_eq!(
        names(&workflows, None, Some("nothing:desc")),
        ["b", "c", "A", "d"]
    );
    assert_eq!(
        names(&workflows, Some("24h:50..100"), Some("7d:asc")),
        ["A", "d", "b", "c"]
    );
    assert_eq!(names(&workflows, Some(""), None), ["b", "c", "A", "d"]);
}

#[test]
fn filter_errors_say_what_is_wrong() {
    for (expression, message) in [
        ("name:\"x", "filter contains an unterminated quote"),
        ("-", "filter contains an empty negated clause"),
        ("name:", "filter clause 'name:' is missing a value"),
        ("-name:", "filter clause 'name:' is missing a value"),
        ("owner:a,@me,@you", "filter keyword '@me' is not supported"),
        ("a name:", "filter clause 'name:' is missing a value"),
    ] {
        assert_eq!(
            FilterExpression::parse(expression).unwrap_err(),
            message,
            "{expression}"
        );
    }
}

#[test]
fn filters_are_cut_into_clauses() {
    let filter = FilterExpression::parse("-status:a,b  'x y':z:w \\-n").unwrap();

    assert_eq!(filter.clauses.len(), 3);
    assert!(filter.clauses[0].negated);
    assert_eq!(filter.clauses[0].field.as_deref(), Some("status"));
    assert_eq!(filter.clauses[0].values, ["a", "b"]);
    assert!(!filter.clauses[1].negated);
    assert_eq!(filter.clauses[1].field.as_deref(), Some("x y"));
    assert_eq!(filter.clauses[1].values, ["z:w"]);
    assert!(filter.clauses[2].negated);
    assert_eq!(filter.clauses[2].field, None);
    assert_eq!(filter.clauses[2].values, ["n"]);
}

#[test]
fn tokens_keep_quoted_and_escaped_characters() {
    assert_eq!(tokenize("a \"b c\"d  e").unwrap(), ["a", "b cd", "e"]);
    assert_eq!(tokenize("'it\"s' \\\\ x\\ y").unwrap(), ["it\"s", "\\", "x y"]);
    assert_eq!(tokenize("end\\").unwrap(), ["end\\"]);
    assert!(tokenize(" \t\u{3000} ").unwrap().is_empty());
    assert!(tokenize("\"open").is_err());
    assert_eq!(tokenize("'' \"\"").unwrap().len(), 0);
}

#[test]
fn sorts_are_read_with_their_direction() {
    let plain = SortSpec::parse("  name ").unwrap();
    assert_eq!((plain.field.as_str(), plain.descending), ("name", false));
    let quoted = SortSpec::parse("\"24h.rate\":Desc").unwrap();
    assert_eq!((quoted.field.as_str(), quoted.descending), ("24h.rate", true));
    let nested = SortSpec::parse("a:b:asc").unwrap();
    assert_eq!((nested.field.as_str(), nested.descending), ("a:b", false));
    for specification in ["", "  ", ":asc", "''", "' '"] {
        assert_eq!(
            SortSpec::parse(specification).unwrap_err(),
            "sort is missing a field"
        );
    }
    assert_eq!(
        SortSpec::parse("name:sideways").unwrap_err(),
        "invalid sort direction 'sideways'; use asc or desc"
    );
}

#[test]
fn values_of_fields_are_looked_up_by_normal_names() {
    let one = workflow("Build", RunStatus::Failure, counts(1, 2, 4));
    let numerals = numerals(&vec![one.clone()], None);
    let value = |field: &str| workflow_value(&one, field, &numerals);

    assert_eq!(normalized("24h - Päss_1"), "24hpäss1");
    assert_eq!(value("Workflow").as_deref(), Some("Build"));
    assert_eq!(value("STATE").as_deref(), Some("failure"));
    assert_eq!(value("7d").as_deref(), Some("25"));
    assert_eq!(value("14d.percentage").as_deref(), Some("25"));
    assert_eq!(value("24h.passed").as_deref(), Some("1"));
    assert_eq!(value("24h.fail").as_deref(), Some("2"));
    assert_eq!(value("24h.total").as_deref(), Some("4"));
    assert_eq!(value("24h.unknown").as_deref(), Some(""));
    assert_eq!(value("3d"), None);
    assert_eq!(
        metric_value(counts(1, 0, 3), "rate", &Numerals::new()),
        ""
    );
    let mut running = one.clone();
    running.is_in_progress = true;
    assert_eq!(status_value(&running), "in_progress");
    assert_eq!(status_value(&one), "failure");
}

#[test]
fn patterns_may_begin_and_end_with_stars() {
    assert!(wildcard_match("linux build", "*build"));
    assert!(wildcard_match("linux build", "linux*"));
    assert!(wildcard_match("linux build", "*x b*"));
    assert!(wildcard_match("linux build", "*"));
    assert!(wildcard_match("", "**"));
    assert!(!wildcard_match("linux build", "li*ld"));
    assert!(!wildcard_match("linux build", "build"));
    assert!(matches_value("LINUX", "*inu*", &Numerals::new()));
}

#[test]
fn operators_are_read_longest_first() {
    assert_eq!(
        comparison(">=5"),
        Some((Operator::AtLeast, "5".to_owned()))
    );
    assert_eq!(comparison("<=5"), Some((Operator::AtMost, "5".to_owned())));
    assert_eq!(comparison(">5"), Some((Operator::Above, "5".to_owned())));
    assert_eq!(comparison("<"), Some((Operator::Below, String::new())));
    assert_eq!(comparison("=5"), None);
    assert!(Operator::AtLeast.is_met(Some(Order::Equal)));
    assert!(!Operator::Above.is_met(Some(Order::Equal)));
    assert!(!Operator::AtMost.is_met(None));
    assert!(Operator::Below.is_met(Some(Order::Less)));
}

#[test]
fn scalars_compare_by_number_where_both_are_numbers() {
    let scalar = |number: Option<Number>, lowered: &str| Scalar {
        number,
        lowered: lowered.to_owned(),
    };
    let ten = || scalar(Some(Number::At(10)), "10");
    let nine = || scalar(Some(Number::At(9)), "9");
    let none = || scalar(Some(Number::NotANumber), "nan");
    let word = || scalar(None, "9a");

    assert_eq!(compare_scalar(&nine(), &ten()), Some(Order::Less));
    assert_eq!(compare_scalar(&ten(), &ten()), Some(Order::Equal));
    assert_eq!(compare_scalar(&none(), &ten()), None);
    assert_eq!(compare_scalar(&word(), &ten()), Some(Order::Greater));
    assert_eq!(
        compare_optional(&Some(nine()), &Some(ten()), true),
        Order::Greater
    );
    assert_eq!(
        compare_optional(&Some(none()), &Some(ten()), true),
        Order::Equal
    );
    assert_eq!(compare_optional(&Some(ten()), &None, true), Order::Less);
    assert_eq!(compare_optional(&None, &Some(ten()), false), Order::Greater);
    assert_eq!(compare_optional(&None, &None, false), Order::Equal);
}

#[test]
fn letters_are_the_same_in_either_case() {
    assert!(eq_ignore_ascii_case("DeSC", "desc"));
    assert!(!eq_ignore_ascii_case("desc", "des"));
    assert!(!eq_ignore_ascii_case("Ä", "ä"));
}

#[test]
fn operands_of_filters_are_listed() {
    assert_eq!(operands_of_value(">=10"), ["10"]);
    assert_eq!(operands_of_value("1..*"), ["1", "*"]);
    assert!(operands_of_value("name").is_empty());
    let filter = FilterExpression::parse("24h:<70,90..95 x name:<=b").unwrap();
    assert_eq!(operands(&filter), ["70", "90", "95", "b"]);
}

#[test]
fn readings_beyond_those_listed_do_not_matter() {
    let workflows = vec![
        workflow("b", RunStatus::Success, counts(1, 1, 2)),
        workflow("a", RunStatus::Failure, counts(2, 1, 3)),
    ];
    let filter = FilterExpression::parse("24h.rate:>40").unwrap();
    let sort = SortSpec::parse("7d.pass").unwrap();
    let listed = numerals(&workflows, Some(&filter));
    let mut more = numerals(&workflows, Some(&filter));
    more.readings.push(("77".to_owned(), Number::At(0)));
    more.rates.push((9, 9, "x".to_owned()));

    let names = |numerals: &Numerals| {
        select_workflows(&workflows, Some(&filter), Some(&sort), numerals)
            .into_iter()
            .map(|workflow| workflow.name.clone())
            .collect::<Vec<_>>()
    };
    assert_eq!(names(&listed), ["b", "a"]);
    assert_eq!(names(&listed), names(&more));
}

#[test]
fn the_last_reading_of_a_text_counts() {
    let mut numerals = Numerals::new();
    assert_eq!(numerals.reading("1"), None);
    numerals.readings.push(("1".to_owned(), Number::At(5)));
    numerals.readings.push(("1".to_owned(), Number::At(6)));
    assert_eq!(numerals.reading("1"), Some(Number::At(6)));
    numerals.rates.push((1, 2, "50".to_owned()));
    assert_eq!(numerals.rate(counts(1, 9, 2)), "50");
    assert_eq!(numerals.rate(counts(2, 9, 2)), "");
}

#[test]
fn exactly_one_status_filter_holds() {
    for status in [RunStatus::Success, RunStatus::Failure, RunStatus::Other] {
        for is_in_progress in [false, true] {
            let mut build = workflow("Build", status, counts(0, 0, 0));
            build.is_in_progress = is_in_progress;
            for word in ["in_progress", "success", "failure", "other"] {
                let expected = status_value(&build) == word;
                for field in ["status", "state", "is"] {
                    assert_eq!(holds(&format!("{field}:{word}"), &build), expected);
                }
            }
        }
    }
}

#[test]
fn ascii_characters_are_brought_into_lower_case_one_by_one() {
    for code in 0..128u8 {
        let character = char::from(code);
        let expected = if character.is_ascii_alphanumeric() {
            character.to_ascii_lowercase().to_string()
        } else {
            String::new()
        };
        assert_eq!(normalized(&character.to_string()), expected);
        let build = workflow(&format!("_{character}_"), RunStatus::Success, counts(0, 0, 0));
        let lowered = format!("_{}_", character.to_ascii_lowercase());
        assert_eq!(
            matches_value(&build.name, &lowered, &Numerals::new()),
            true
        );
    }
    assert_eq!(normalized("ÄÖ-ß"), "äöß");
    assert!(matches_value("ÄPFEL", "äpfel", &Numerals::new()));
}
