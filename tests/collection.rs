use rytest_core::collector::Collector;
use rytest_core::dirs::{
    directory_outcome, is_source_file, plan_directory, should_enter, DirEntry, DirOutcome, Step,
};
use rytest_core::nodes::{decimal_string, node_specs};
use rytest_core::literal::is_literal;
use rytest_core::params::{extract_parameters, ParamError};
use rytest_core::pattern::{accepts_with, matches_pattern, pattern_matches};
use rytest_core::scanner::{parse_test_class, parse_test_function, TestKind};
use rytest_core::text::{is_space, trim_str};

fn strings(v: &[&str]) -> Vec<String> {
    v.iter().map(|s| s.to_string()).collect()
}

fn lines_of(text: &str) -> Vec<String> {
    text.lines().map(|l| l.to_string()).collect()
}

fn test_collector() -> Collector {
    Collector::new(strings(&["Test"]), strings(&["test_"]))
}

const SAMPLE: &str = r#"
@pytest.mark.parametrize("value", [1, 2, 3])
def test_parametrized(value):
    assert value > 0

def test_simple():
    assert True

class TestExample:
    def test_method(self):
        pass
"#;

#[test]
fn test_pattern_matching() {
    let patterns = vec!["test_*.py".to_string(), "*_test.py".to_string()];
    assert!(matches_pattern("test_example.py", &patterns));
    assert!(matches_pattern("example_test.py", &patterns));
    assert!(!matches_pattern("example.py", &patterns));

    let class_patterns = vec!["Test".to_string()];
    assert!(matches_pattern("TestExample", &class_patterns));
    assert!(!matches_pattern("Example", &class_patterns));
}

#[test]
fn test_parametrize_parsing() {
    let line = r#"@pytest.mark.parametrize("value", [1, 2, 3])"#;
    let params = extract_parameters(line).unwrap().unwrap();
    assert_eq!(params.argnames, vec!["value"]);
    assert_eq!(params.argvalues.len(), 3);
    assert!(params.ids.is_none());

    let line = r#"@pytest.mark.parametrize(("x", "y"), [(1, 2), (3, 4)])"#;
    let params = extract_parameters(line).unwrap().unwrap();
    assert_eq!(params.argnames, vec!["x", "y"]);
    assert_eq!(params.argvalues.len(), 2);
    assert!(params.ids.is_none());

    let line = r#"@pytest.mark.parametrize("value", [1, 2, 3], ids=["a", "b", "c"])"#;
    let params = extract_parameters(line).unwrap().unwrap();
    assert_eq!(params.argnames, vec!["value"]);
    assert_eq!(params.argvalues.len(), 3);
    assert_eq!(params.ids.unwrap(), vec!["a", "b", "c"]);
}

#[test]
fn test_file_collection() {
    let collector = test_collector();
    assert!(is_source_file("/tmp/test_temp.py"));
    let result = collector.parse_lines("test_temp.py", &lines_of(SAMPLE));
    assert!(result.is_ok());
    assert!(!result.unwrap().is_empty());
}

#[test]
fn test_package_collection() {
    let collector = test_collector();
    let init = "\ndef test_init():\n    assert True\n";
    let entries = vec![
        DirEntry { name: "test_module.py".to_string(), is_file: true, is_dir: false },
        DirEntry { name: "__init__.py".to_string(), is_file: true, is_dir: false },
    ];
    let plan = plan_directory(true, &entries);
    assert_eq!(plan, vec![Step::CollectMarker, Step::CollectFile(0)]);
    let init_items = collector.parse_lines("test_pkg/__init__.py", &lines_of(init)).unwrap();
    assert_eq!(init_items.len(), 1);
    assert_eq!(init_items[0].name, "test_init");
    let module_items = collector.parse_lines("test_pkg/test_module.py", &lines_of(SAMPLE)).unwrap();
    assert_eq!(module_items.len(), 4);
}

#[test]
fn parametrize_rows_hold_value_texts() {
    let line = r#"@pytest.mark.parametrize(("x", "y"), [(1, 2), (3, "a, b")])"#;
    let params = extract_parameters(line).unwrap().unwrap();
    assert_eq!(params.argvalues, vec![vec!["1", "2"], vec!["3", "\"a, b\""]]);
    let line = r#"@parametrize('v', [(1,), [2, 3], {"k": (4, 5)}],)"#;
    let params = extract_parameters(line).unwrap().unwrap();
    assert_eq!(params.argnames, vec!["v"]);
    assert_eq!(params.argvalues, vec![vec!["1"], vec!["[2, 3]"], vec!["{\"k\": (4, 5)}"]]);
    let line = r#"@pytest.mark.parametrize(["a", "b"], [(1, 2)], indirect=True)"#;
    let params = extract_parameters(line).unwrap().unwrap();
    assert_eq!(params.argnames, vec!["a", "b"]);
    assert!(params.ids.is_none());
}

#[test]
fn non_parametrize_decorator_gives_nothing() {
    assert!(extract_parameters("@pytest.mark.skip(reason=\"x\")").unwrap().is_none());
    assert!(extract_parameters("@fixture").unwrap().is_none());
}

#[test]
fn parametrize_errors() {
    assert_eq!(extract_parameters("@pytest.mark.parametrize").unwrap_err(), ParamError::MalformedDecorator);
    assert_eq!(extract_parameters("@pytest.mark.parametrize(\"x\"").unwrap_err(), ParamError::MalformedDecorator);
    assert_eq!(extract_parameters("@pytest.mark.parametrize)\"x\"(").unwrap_err(), ParamError::MalformedDecorator);
    assert_eq!(extract_parameters("@pytest.mark.parametrize(\"x\", [1, 2)").unwrap_err(), ParamError::InvalidLiteral);
    assert_eq!(extract_parameters("@pytest.mark.parametrize(\"x\", , [1])").unwrap_err(), ParamError::InvalidLiteral);
    assert_eq!(extract_parameters("@pytest.mark.parametrize(\"x)").unwrap_err(), ParamError::InvalidLiteral);
    assert_eq!(extract_parameters("@pytest.mark.parametrize(\"x\")").unwrap_err(), ParamError::MissingArguments);
    assert_eq!(extract_parameters("@pytest.mark.parametrize()").unwrap_err(), ParamError::MissingArguments);
    assert_eq!(extract_parameters("@pytest.mark.parametrize(1, [1])").unwrap_err(), ParamError::InvalidArgNames);
    assert_eq!(extract_parameters("@pytest.mark.parametrize((), [1])").unwrap_err(), ParamError::InvalidArgNames);
    assert_eq!(extract_parameters("@pytest.mark.parametrize(\"x\", 3)").unwrap_err(), ParamError::InvalidArgValues);
    assert_eq!(extract_parameters("@pytest.mark.parametrize(\"x\", (1, 2))").unwrap_err(), ParamError::InvalidArgValues);
    assert_eq!(
        extract_parameters("@pytest.mark.parametrize((\"x\", \"y\"), [(1, 2), 3])").unwrap_err(),
        ParamError::InvalidArgValues
    );
    assert_eq!(extract_parameters("@pytest.mark.parametrize(\"x\", [1], 5)").unwrap_err(), ParamError::InvalidOptions);
    assert_eq!(
        extract_parameters("@pytest.mark.parametrize(\"x\", [1], ids=[1])").unwrap_err(),
        ParamError::InvalidOptions
    );
}

#[test]
fn node_identities() {
    let collector = test_collector();
    let text = "def test_simple():\n    pass\n";
    let items = collector.parse_lines("f.py", &lines_of(text)).unwrap();
    let nodes = node_specs(&items[0]).unwrap();
    assert_eq!(nodes.len(), 1);
    assert_eq!(nodes[0].node_id, "f.py::test_simple");
    assert_eq!(nodes[0].name, "test_simple");

    let text = "@pytest.mark.parametrize(\"v\", [1, 2, 3], ids=[\"a\", \"b\", \"c\"])\ndef test_parametrized(v):\n    pass\n";
    let items = collector.parse_lines("f.py", &lines_of(text)).unwrap();
    let ids: Vec<String> = node_specs(&items[0]).unwrap().into_iter().map(|n| n.node_id).collect();
    assert_eq!(ids, vec!["f.py::test_parametrized[a]", "f.py::test_parametrized[b]", "f.py::test_parametrized[c]"]);

    let text = "@pytest.mark.parametrize(\"v\", [1, 2, 3])\ndef test_parametrized(v):\n    pass\n";
    let items = collector.parse_lines("f.py", &lines_of(text)).unwrap();
    let nodes = node_specs(&items[0]).unwrap();
    let ids: Vec<String> = nodes.iter().map(|n| n.node_id.clone()).collect();
    assert_eq!(ids, vec!["f.py::test_parametrized[0]", "f.py::test_parametrized[1]", "f.py::test_parametrized[2]"]);
    assert_eq!(nodes[1].arg_names, vec!["v"]);
    assert_eq!(nodes[1].arg_values, vec!["2"]);
    assert_eq!(nodes[1].line_number, 2);
}

#[test]
fn ids_must_match_rows() {
    let collector = test_collector();
    let text = "@pytest.mark.parametrize(\"v\", [1, 2, 3], ids=[\"a\"])\ndef test_p(v):\n    pass\n";
    let items = collector.parse_lines("f.py", &lines_of(text)).unwrap();
    assert_eq!(node_specs(&items[0]).unwrap_err(), ParamError::IdsMismatch);
}

#[test]
fn end_to_end_scan() {
    let collector = test_collector();
    let items = collector.parse_lines("test_temp.py", &lines_of(SAMPLE)).unwrap();
    assert_eq!(items.len(), 4);
    assert_eq!(items[0].name, "test_parametrized");
    assert_eq!(items[0].kind, TestKind::Function);
    assert_eq!(items[0].line_number, 3);
    assert_eq!(items[0].path, "test_temp.py");
    assert_eq!(items[1].name, "test_simple");
    assert_eq!(items[1].kind, TestKind::Function);
    assert!(items[1].parameters.is_none());
    assert_eq!(items[2].name, "TestExample");
    assert_eq!(items[2].kind, TestKind::Class);
    assert_eq!(items[2].line_number, 9);
    assert_eq!(items[3].name, "test_method");
    assert_eq!(items[3].kind, TestKind::Method);
    let counts: Vec<usize> = items.iter().map(|it| node_specs(it).unwrap().len()).collect();
    assert_eq!(counts, vec![3, 1, 1, 1]);
    let class_nodes = node_specs(&items[2]).unwrap();
    assert!(class_nodes[0].is_class);
    assert_eq!(class_nodes[0].node_id, "test_temp.py::TestExample");
}

#[test]
fn function_after_class_is_a_method() {
    let collector = test_collector();
    let text = "class TestA:\n    pass\n\ndef test_free():\n    pass\n";
    let items = collector.parse_lines("m.py", &lines_of(text)).unwrap();
    assert_eq!(items.len(), 2);
    assert_eq!(items[1].kind, TestKind::Method);
}

#[test]
fn lookback_skips_comments_and_other_decorators() {
    let text = "@pytest.mark.parametrize(\"v\", [1, 2])\n# note\n\n@pytest.mark.slow\ndef test_p(v):\n    pass\n";
    let lines = lines_of(text);
    let item = parse_test_function(&lines, 4, &strings(&["test_"])).unwrap().unwrap();
    assert_eq!(item.parameters.unwrap().argvalues.len(), 2);
    let text = "@pytest.mark.parametrize(\"v\", [1, 2])\nx = 1\ndef test_p(v):\n    pass\n";
    let lines = lines_of(text);
    let item = parse_test_function(&lines, 2, &strings(&["test_"])).unwrap().unwrap();
    assert!(item.parameters.is_none());
    assert!(parse_test_function(&lines, 1, &strings(&["test_"])).unwrap().is_none());
}

#[test]
fn malformed_decorator_aborts_file() {
    let collector = test_collector();
    let text = "def test_a():\n    pass\n@pytest.mark.parametrize\ndef test_b():\n    pass\n";
    assert_eq!(
        collector.parse_lines("m.py", &lines_of(text)).unwrap_err(),
        ParamError::MalformedDecorator
    );
}

#[test]
fn class_names_and_patterns() {
    let item = parse_test_class("  class TestThing(Base):", 7, &strings(&["Test"])).unwrap();
    assert_eq!(item.name, "TestThing");
    assert_eq!(item.line_number, 7);
    assert_eq!(parse_test_class("class TestOther:", 1, &strings(&["Test"])).unwrap().name, "TestOther");
    assert!(parse_test_class("class Helper:", 1, &strings(&["Test"])).is_none());
    assert!(parse_test_class("class TestX:", 1, &strings(&["*Suite"])).is_none());
    assert_eq!(parse_test_class("class MySuite:", 1, &strings(&["*Suite"])).unwrap().name, "MySuite");
}

#[test]
fn empty_pattern_list_matches_nothing() {
    assert!(!matches_pattern("test_x", &Vec::new()));
    assert!(matches_pattern("test_x", &strings(&[""])));
}

#[test]
fn source_file_extension() {
    assert!(is_source_file("a/b/test_x.py"));
    assert!(is_source_file("x.py"));
    assert!(!is_source_file("a/.py"));
    assert!(!is_source_file("a/b.pyc"));
    assert!(!is_source_file("a.py/readme"));
    assert!(!is_source_file("notes.txt"));
}

#[test]
fn cycle_guard() {
    let ancestors = strings(&["/root", "/root/pkg"]);
    assert!(!should_enter(&ancestors, "/root/pkg"));
    assert!(should_enter(&ancestors, "/root/pkg/sub"));
    assert!(should_enter(&Vec::new(), "/root"));
}

#[test]
fn package_plan_puts_marker_first() {
    let entries = vec![
        DirEntry { name: "sub".to_string(), is_file: false, is_dir: true },
        DirEntry { name: "a.py".to_string(), is_file: true, is_dir: false },
        DirEntry { name: "__init__.py".to_string(), is_file: true, is_dir: false },
    ];
    assert_eq!(
        plan_directory(true, &entries),
        vec![Step::CollectMarker, Step::Enter(0), Step::CollectFile(1)]
    );
    assert_eq!(plan_directory(false, &entries), vec![Step::CollectFile(1), Step::CollectFile(2)]);
    assert_eq!(plan_directory(true, &Vec::new()), vec![Step::CollectMarker]);
}

#[test]
fn decimal_numerals() {
    assert_eq!(decimal_string(0), "0");
    assert_eq!(decimal_string(9), "9");
    assert_eq!(decimal_string(10), "10");
    assert_eq!(decimal_string(1203), "1203");
}

#[test]
fn trimming() {
    assert_eq!(trim_str("  def f():\t"), "def f():");
    assert_eq!(trim_str("\u{3000}x\u{a0}"), "x");
    assert_eq!(trim_str("   "), "");
}

#[test]
fn white_space_matches_std() {
    for code in 0u32..0x3100 {
        if let Some(c) = char::from_u32(code) {
            assert_eq!(is_space(c), c.is_whitespace(), "{:?}", c);
        }
    }
}

#[test]
fn glob_verdict_only_counts_for_wildcards() {
    assert!(accepts_with("t*", "x", true));
    assert!(!accepts_with("t*", "t", false));
    assert!(accepts_with("te", "test", false));
    assert!(!accepts_with("te", "xtest", true));
    assert!(pattern_matches("*_check", "a_check"));
    assert!(!pattern_matches("*_check", "a_check_b"));
}

#[test]
fn non_literal_arguments_are_refused() {
    assert_eq!(extract_parameters("@parametrize(\"x\",[f()])").unwrap_err(), ParamError::InvalidLiteral);
    let line = r#"@pytest.mark.parametrize("x", [__import__("os").system("id")])"#;
    assert_eq!(extract_parameters(line).unwrap_err(), ParamError::InvalidLiteral);
    assert_eq!(extract_parameters("@parametrize(x, [1])").unwrap_err(), ParamError::InvalidLiteral);
    assert_eq!(extract_parameters("@parametrize(\"x\", [1 + 2])").unwrap_err(), ParamError::InvalidLiteral);
    assert_eq!(extract_parameters("@parametrize(\"x\", [os.sep])").unwrap_err(), ParamError::InvalidLiteral);
    assert_eq!(
        extract_parameters("@parametrize(\"x\", [1], ids=make_ids())").unwrap_err(),
        ParamError::InvalidLiteral
    );
}

#[test]
fn mapping_as_third_argument() {
    let params = extract_parameters("@parametrize(\"x\",[1],{})").unwrap().unwrap();
    assert_eq!(params.argnames, vec!["x"]);
    assert!(params.ids.is_none());
    let params = extract_parameters(r#"@parametrize("x", [1, 2], {"ids": ["a", "b"]})"#).unwrap().unwrap();
    assert_eq!(params.ids.unwrap(), vec!["a", "b"]);
    let params = extract_parameters(r#"@parametrize("x", [1], {'other': True, 'ids': ['z']})"#).unwrap().unwrap();
    assert_eq!(params.ids.unwrap(), vec!["z"]);
    let params = extract_parameters(r#"@parametrize("x", [1], {"other": 1})"#).unwrap().unwrap();
    assert!(params.ids.is_none());
    assert_eq!(
        extract_parameters(r#"@parametrize("x", [1], {"ids": "a"})"#).unwrap_err(),
        ParamError::InvalidOptions
    );
    let params = extract_parameters(r#"@pytest.mark.parametrize("v", [1], {}, 5)"#).unwrap().unwrap();
    assert!(params.ids.is_none());
    let params = extract_parameters(r#"@parametrize("v", [1], {"ids": ["a"]}, True)"#).unwrap().unwrap();
    assert_eq!(params.ids.unwrap(), vec!["a"]);
    assert_eq!(
        extract_parameters(r#"@parametrize("x", [1], 5, {})"#).unwrap_err(),
        ParamError::InvalidOptions
    );
}

#[test]
fn escaped_quotes_and_prefixes() {
    let line = r#"@parametrize(r"x", ["a\"b", b'c', 'it\'s'], ids=["one", u"two", 'th\'ree'])"#;
    let params = extract_parameters(line).unwrap().unwrap();
    assert_eq!(params.argnames, vec!["x"]);
    assert_eq!(
        params.argvalues,
        vec![vec![r#""a\"b""#], vec!["b'c'"], vec![r#"'it\'s'"#]]
    );
    assert_eq!(params.ids.unwrap(), vec!["one", "two", r#"th\'ree"#]);
    assert_eq!(extract_parameters(r#"@parametrize("x", ["a\"])"#).unwrap_err(), ParamError::InvalidLiteral);
}

#[test]
fn literal_forms() {
    for text in ["1", "-2.5", "+7", "0x1F", "0X_1f", "0o17", "0b101", "1_000", "1e-5", "1E+10", "1.", ".5",
        "1_0.2_5e+1_0j", "3j", "0123j", "00", "0_0", "0.5", "'s'", "\"t\"", "br'x'", "Rb'x'", "U'x'",
        "True", "False", "None", "()", "(1)", "(1,)", "[1, [2, (3, 4)]]", "{}", "{'a': [1], 2: None}", "[1,]"] {
        assert!(is_literal(text), "{}", text);
    }
    for text in ["", "f()", "x", "a.b", "1 + 2", "[f(1)]", "{1}", "{'a': 1: 2}", "[1,,2]", "(", "{'a': g}", "-x",
        "lambda: 1", "0x1.real", "1abc", "1.2.3", "0123", "1__0", "1_", "_1", "0x", "0b2", "1e", "1e+", "0x1j",
        "1._5", ".", "uu'x'", "ub'x'", "bu'x'", "ur'x'", "f'x'"] {
        assert!(!is_literal(text), "{}", text);
    }
    let line = "@pytest.mark.parametrize(\"x\", [0x1.real])";
    assert_eq!(extract_parameters(line).unwrap_err(), ParamError::InvalidLiteral);
}

#[test]
fn directory_outcomes() {
    assert_eq!(directory_outcome(true, false), DirOutcome::Package);
    assert_eq!(directory_outcome(true, true), DirOutcome::Package);
    assert_eq!(directory_outcome(false, true), DirOutcome::Parent);
    assert_eq!(directory_outcome(false, false), DirOutcome::Nothing);
}
