use pon_provision::command::Command;
use pon_provision::configuration::{Config, ConfigField, NestedCommand};
use pon_provision::lines::split_lines;

fn leaf(text: &str) -> NestedCommand {
    NestedCommand::from(Command::from(text))
}

fn block(text: &str, kids: Vec<NestedCommand>) -> NestedCommand {
    let mut out = leaf(text);
    for kid in kids {
        out.nest(kid);
    }
    out
}

fn lines(text: &str) -> Vec<String> {
    text.lines().map(|line| line.to_string()).collect()
}

#[test]
fn nest_appends_in_order() {
    let mut root = leaf("interface gpon_olt-1/1/1");
    assert_eq!(root.nested, None);
    root.nest(leaf("a"));
    root.nest(leaf("b"));
    let kids = root.nested.as_ref().unwrap();
    assert_eq!(kids.len(), 2);
    assert_eq!(kids[0].as_str(), "a");
    assert_eq!(kids[1].as_str(), "b");
    assert_eq!(root.as_str(), "interface gpon_olt-1/1/1");
}

#[test]
fn raw_of_a_leaf_is_its_line() {
    assert_eq!(leaf("end").raw(), "end\n");
}

#[test]
fn raw_indents_by_depth_and_closes_lists() {
    let tree = block("root", vec![block("child", vec![leaf("grandchild")]), leaf("second")]);
    assert_eq!(tree.raw(), "root\n  child\n    grandchild\n$\n  second\n$\n");
}

#[test]
fn clone_is_equal() {
    let tree = block("root", vec![block("child", vec![leaf("grandchild")]), leaf("second")]);
    assert_eq!(tree.clone(), tree);
}

#[test]
fn field_names() {
    assert_eq!(ConfigField::default().as_str(), "raw");
    assert_eq!(ConfigField::from("xpon").as_str(), "xpon");
    assert!(ConfigField::from("xpon") == ConfigField::from("xpon"));
    assert!(ConfigField::from("xpon") != ConfigField::from("MSAN"));
}

#[test]
fn flat_script_is_one_raw_section() {
    let config = Config::from(vec![Command::from("a"), Command::from("b")]);
    assert_eq!(config.0.len(), 1);
    assert_eq!(config.0[0].0.as_str(), "raw");
    assert_eq!(config.0[0].1, vec![leaf("a"), leaf("b")]);
    assert_eq!(config.render(), "!<raw>\na\nb\n!</raw>\n");
}

#[test]
fn empty_config_renders_nothing() {
    assert_eq!(Config::default().render(), "");
    assert_eq!(Config::parse(&Vec::new()).0.len(), 0);
}

#[test]
fn render_writes_sections_in_order() {
    let mut config = Config::default();
    config.0.push((ConfigField::from("xpon"), vec![block("a", vec![leaf("b")])]));
    config.0.push((ConfigField::from("MSAN"), vec![]));
    assert_eq!(config.render(), "!<xpon>\na\n  b\n$\n!</xpon>\n!<MSAN>\n!</MSAN>\n");
}

#[test]
fn merge_appends_per_field_and_adds_new_fields() {
    let mut left = Config::default();
    left.0.push((ConfigField::from("xpon"), vec![leaf("a")]));
    let mut right = Config::default();
    right.0.push((ConfigField::from("MSAN"), vec![leaf("m")]));
    right.0.push((ConfigField::from("xpon"), vec![leaf("b"), leaf("c")]));
    left.merge(right);
    assert_eq!(left.0.len(), 2);
    assert_eq!(left.0[0].0.as_str(), "xpon");
    assert_eq!(left.0[0].1, vec![leaf("a"), leaf("b"), leaf("c")]);
    assert_eq!(left.0[1].0.as_str(), "MSAN");
    assert_eq!(left.0[1].1, vec![leaf("m")]);
}

#[test]
fn get_finds_a_section_by_name() {
    let mut config = Config::default();
    config.0.push((ConfigField::from("xpon"), vec![leaf("a")]));
    assert_eq!(config.get(&ConfigField::from("xpon")), Some(&vec![leaf("a")]));
    assert_eq!(config.get(&ConfigField::from("other")), None);
}

#[test]
fn parse_builds_trees_from_indentation() {
    let dump = "!<xpon>\ninterface gpon-olt_1/1/1\n  onu 1 type F601 sn ZTEG00000001\n  onu 2 type F601 sn ZTEG00000002\n$\ninterface gpon-onu_1/1/1:1\n  tcont 1 profile 1G\n    deep\n      deeper\n  gemport 1 tcont 1\n$\n!</xpon>\n";
    let config = Config::parse(&lines(dump));
    assert_eq!(config.0.len(), 1);
    assert_eq!(config.0[0].0.as_str(), "xpon");
    let expected = vec![
        block(
            "interface gpon-olt_1/1/1",
            vec![leaf("onu 1 type F601 sn ZTEG00000001"), leaf("onu 2 type F601 sn ZTEG00000002")],
        ),
        block(
            "interface gpon-onu_1/1/1:1",
            vec![
                block("tcont 1 profile 1G", vec![block("deep", vec![leaf("deeper")])]),
                leaf("gemport 1 tcont 1"),
            ],
        ),
    ];
    assert_eq!(config.0[0].1, expected);
}

#[test]
fn parse_skips_blank_lines_closers_and_lines_outside_sections() {
    let dump = "outside\n\n!<a>\n\n   \nfirst\n$\n  $ inside\n!</a>\nafter close\n!<b>\nsecond\n";
    let config = Config::parse(&lines(dump));
    assert_eq!(config.0.len(), 2);
    assert_eq!(config.0[0].0.as_str(), "a");
    assert_eq!(config.0[0].1, vec![leaf("first")]);
    assert_eq!(config.0[1].0.as_str(), "b");
    assert_eq!(config.0[1].1, vec![leaf("second")]);
}

#[test]
fn parse_attaches_too_deep_lines_to_the_deepest_command() {
    let dump = "!<a>\n  orphan\nroot\n      far\n";
    let config = Config::parse(&lines(dump));
    assert_eq!(config.0[0].1, vec![leaf("orphan"), block("root", vec![leaf("far")])]);
}

#[test]
fn parse_reopening_a_section_empties_it() {
    let dump = "!<a>\nfirst\n!</a>\n!<b>\nx\n!</b>\n!<a>\nsecond\n!</a>\n";
    let config = Config::parse(&lines(dump));
    assert_eq!(config.0.len(), 2);
    assert_eq!(config.0[0].0.as_str(), "a");
    assert_eq!(config.0[0].1, vec![leaf("second")]);
    assert_eq!(config.0[1].1, vec![leaf("x")]);
}

#[test]
fn parse_trims_and_counts_two_spaces_per_level() {
    let dump = "!<a>\nroot  \n   odd\t\n \tone space\n";
    let config = Config::parse(&lines(dump));
    assert_eq!(config.0[0].1, vec![block("root", vec![leaf("odd")]), leaf("one space")]);
}

#[test]
fn rendered_config_is_read_back() {
    let mut config = Config::default();
    config.0.push((
        ConfigField::from("if-intf"),
        vec![block("a", vec![block("b", vec![leaf("c"), leaf("d")]), leaf("e")]), leaf("f")],
    ));
    config.0.push((ConfigField::from("xpon"), vec![]));
    config.0.push((ConfigField::from("MSAN"), vec![block("g", vec![leaf("h")])]));
    let again = Config::parse(&lines(&config.render()));
    assert_eq!(again.0.len(), 3);
    for (got, want) in again.0.iter().zip(config.0.iter()) {
        assert_eq!(got.0.as_str(), want.0.as_str());
        assert_eq!(got.1, want.1);
    }
    assert_eq!(again.render(), config.render());
}

#[test]
fn first_nested_is_the_first_child() {
    let tree = block("root", vec![leaf("a"), leaf("b")]);
    assert_eq!(tree.first_nested(), Some(leaf("a")));
    assert_eq!(leaf("alone").first_nested(), None);
}

#[test]
fn lines_of_a_config_are_read_back() {
    let mut config = Config::default();
    config.0.push((
        ConfigField::from("xpon"),
        vec![block("a", vec![block("b", vec![leaf("c")]), leaf("d")]), leaf("e")],
    ));
    config.0.push((ConfigField::from("empty"), vec![]));
    let written = config.lines();
    assert_eq!(
        written,
        vec!["!<xpon>", "a", "  b", "    c", "$", "  d", "$", "e", "!</xpon>", "!<empty>", "!</empty>"]
    );
    let again = Config::parse(&written);
    assert_eq!(again.0.len(), 2);
    assert_eq!(again.0[0].1, config.0[0].1);
    assert_eq!(again.0[1].1, config.0[1].1);
    let text: String = written.iter().map(|line| format!("{line}\n")).collect();
    assert_eq!(text, config.render());
}

#[test]
fn add_assign_merges() {
    let mut left = Config::from(vec![Command::from("a")]);
    left += Config::from(vec![Command::from("b")]);
    assert_eq!(left.0.len(), 1);
    assert_eq!(left.0[0].1, vec![leaf("a"), leaf("b")]);
}

#[test]
fn text_is_cut_at_line_feeds() {
    assert_eq!(split_lines(""), Vec::<String>::new());
    assert_eq!(split_lines("a"), vec!["a"]);
    assert_eq!(split_lines("a\n"), vec!["a"]);
    assert_eq!(split_lines("\n"), vec![""]);
    assert_eq!(split_lines("a\n\nb c\n  d"), vec!["a", "", "b c", "  d"]);
    assert_eq!(split_lines("é\n¢\n\n"), vec!["é", "¢", ""]);
    for text in ["", "x", "x\ny", "\n\n", "a\n b\n"] {
        let want: Vec<String> = text.lines().map(|line| line.to_string()).collect();
        assert_eq!(split_lines(text), want);
    }
}

#[test]
fn rendered_text_is_read_back() {
    let mut config = Config::default();
    config.0.push((
        ConfigField::from("if-intf"),
        vec![block("a", vec![block("b", vec![leaf("c"), leaf("d")]), leaf("e")]), leaf("f")],
    ));
    config.0.push((ConfigField::from("MSAN"), vec![block("g", vec![leaf("h")])]));
    let again = Config::parse_text(&config.render());
    assert_eq!(again.0.len(), 2);
    for (got, want) in again.0.iter().zip(config.0.iter()) {
        assert_eq!(got.0.as_str(), want.0.as_str());
        assert_eq!(got.1, want.1);
    }
}
