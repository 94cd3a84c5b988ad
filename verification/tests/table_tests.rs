use tealog::table::{build_default_infusion_table, build_infusion_table, plain_table_spec, TableSpec};

fn decorated_expected() -> String {
    let rule = "+---+--------------------+----------------------------------------------------------------------------------------------------+";
    let blank = "|   |                    |                                                                                                    |";
    let mut lines: Vec<String> = Vec::new();
    lines.push(rule.to_string());
    let labels = [" # ", " 1 ", " 2 ", " 3 ", " 4 ", " 5 "];
    for label in labels {
        lines.push(blank.to_string());
        lines.push(blank.to_string());
        if label == " # " {
            lines.push(format!(
                "|{}|        Body        |{}Notes{}|",
                label,
                " ".repeat(47),
                " ".repeat(48)
            ));
        } else {
            lines.push(format!(
                "|{}|                    |{}|",
                label,
                " ".repeat(100)
            ));
        }
        lines.push(blank.to_string());
        lines.push(blank.to_string());
        lines.push(rule.to_string());
    }
    lines.join("\n")
}

#[test]
fn table_build_table_returns_expected_table() {
    let table = build_default_infusion_table();

    let expected = decorated_expected();

    println!("{table}");
    println!("{expected}");
    assert_eq!(table, expected)
}

#[test]
fn build_default_infusion_table_is_deterministic() {
    let first = build_default_infusion_table();
    let second = build_default_infusion_table();
    assert_eq!(first, second);
}

#[test]
fn default_table_has_expected_rule_and_block_counts() {
    let table = build_default_infusion_table();
    let rules = table.lines().filter(|l| l.starts_with('+')).count();
    assert_eq!(rules, 7);
    let mut blocks = 0;
    let mut in_block = false;
    for line in table.lines() {
        let content = line.starts_with('|');
        if content && !in_block {
            blocks += 1;
        }
        in_block = content;
    }
    assert_eq!(blocks, 6);
}

#[test]
fn every_line_spans_the_full_table_width() {
    let table = build_default_infusion_table();
    for line in table.lines() {
        assert_eq!(line.chars().count(), 3 + 20 + 100 + 4);
    }
}

#[test]
fn plain_table_matches_content_widths_exactly() {
    let headers = vec![
        String::from("Infusion"),
        String::from("Body"),
        String::from("Notes"),
    ];
    let spec = plain_table_spec(headers, 5);
    let table = build_infusion_table(&spec);

    let expected = vec![
        "+--------+----+-----+",
        "|Infusion|Body|Notes|",
        "+--------+----+-----+",
        "|1       |    |     |",
        "+--------+----+-----+",
        "|2       |    |     |",
        "+--------+----+-----+",
        "|3       |    |     |",
        "+--------+----+-----+",
        "|4       |    |     |",
        "+--------+----+-----+",
        "|5       |    |     |",
        "+--------+----+-----+",
    ]
    .join("\n");
    assert_eq!(table, expected);
}

#[test]
fn overlong_content_wraps_inside_the_border() {
    let spec = TableSpec {
        headers: vec![String::from("abcdefg"), String::new(), String::new()],
        column_widths: vec![3, 3, 3],
        row_count: 1,
        label_prefix: String::new(),
        extra_height: 0,
        centered: false,
    };
    let table = build_infusion_table(&spec);

    let expected = vec![
        "+---+---+---+",
        "|abc|   |   |",
        "|def|   |   |",
        "|g  |   |   |",
        "+---+---+---+",
        "|1  |   |   |",
        "+---+---+---+",
    ]
    .join("\n");
    assert_eq!(table, expected);
}

#[test]
fn labels_count_upward_from_one() {
    let headers = vec![
        String::from("Infusion"),
        String::from("Body"),
        String::from("Notes"),
    ];
    let spec = plain_table_spec(headers, 12);
    let table = build_infusion_table(&spec);
    assert!(table.contains("|1       |"));
    assert!(table.contains("|12      |"));
    assert!(!table.contains("|13      |"));
    assert!(!table.contains("|0       |"));
}
