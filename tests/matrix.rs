use matrix_job::conv::{ConvError, TemplateValue};
use matrix_job::pipeline::{convert_matrix, FilterVerdict, MatrixError};
use matrix_job::render::{render_scopes, squash_scope};
use matrix_job::value::{Number, SourceValue};
use matrix_job::{matrix, Environment, MatrixDefinition, Template};

fn s(x: &str) -> SourceValue {
    SourceValue::String(x.to_string())
}

fn os_arch() -> MatrixDefinition {
    vec![
        ("os".to_string(), vec![s("linux"), s("mac")]),
        ("arch".to_string(), vec![s("x64")]),
    ]
}

fn text(v: &SourceValue) -> &str {
    match v {
        SourceValue::String(x) => x.as_str(),
        _ => panic!("not a string"),
    }
}

fn template_text(v: &TemplateValue) -> &str {
    match v {
        TemplateValue::Str(x) => x.as_str(),
        _ => panic!("not a string"),
    }
}

fn lookup<'a>(env: &'a Environment<TemplateValue>, key: &str) -> &'a TemplateValue {
    &env.iter().find(|(k, _)| k == key).unwrap().1
}

#[test]
fn expands_two_by_one() {
    let m = matrix(&os_arch());
    assert_eq!(m.len(), 2);
    assert_eq!(m[0][0].0, "os");
    assert_eq!(text(&m[0][0].1), "linux");
    assert_eq!(m[0][1].0, "arch");
    assert_eq!(text(&m[0][1].1), "x64");
    assert_eq!(text(&m[1][0].1), "mac");
    assert_eq!(text(&m[1][1].1), "x64");
}

#[test]
fn empty_definition_gives_one_empty_environment() {
    let m = matrix(&Vec::new());
    assert_eq!(m.len(), 1);
    assert!(m[0].is_empty());
}

#[test]
fn empty_value_list_gives_no_environment() {
    let mut def = os_arch();
    def.push(("cc".to_string(), Vec::new()));
    assert_eq!(matrix(&def).len(), 0);
}

#[test]
fn size_is_product_of_lengths() {
    let def = vec![
        ("a".to_string(), vec![s("1"), s("2"), s("3")]),
        ("b".to_string(), vec![s("x"), s("y")]),
        ("c".to_string(), vec![s("p"), s("q")]),
    ];
    let m = matrix(&def);
    assert_eq!(m.len(), 12);
    for env in &m {
        let names: Vec<&str> = env.iter().map(|(k, _)| k.as_str()).collect();
        assert_eq!(names, vec!["a", "b", "c"]);
    }
    assert_eq!(text(&m[11][0].1), "3");
    assert_eq!(text(&m[11][2].1), "q");
    assert_eq!(text(&m[1][2].1), "q");
}

#[test]
fn filter_keeps_one_environment() {
    let m = matrix(&os_arch());
    let verdicts = Some(vec![FilterVerdict::Reject, FilterVerdict::Pass]);
    let out = convert_matrix(&m, &verdicts).unwrap();
    assert_eq!(out.len(), 1);
    assert_eq!(template_text(lookup(&out[0], "os")), "mac");
}

#[test]
fn no_filter_keeps_all() {
    let m = matrix(&os_arch());
    let out = convert_matrix(&m, &None).unwrap();
    assert_eq!(out.len(), 2);
    assert_eq!(template_text(lookup(&out[0], "os")), "linux");
    assert_eq!(template_text(lookup(&out[1], "os")), "mac");
}

#[test]
fn all_pass_keeps_all() {
    let m = matrix(&os_arch());
    let out = convert_matrix(&m, &Some(vec![FilterVerdict::Pass, FilterVerdict::Pass])).unwrap();
    assert_eq!(out.len(), 2);
}

#[test]
fn filter_failure_is_an_error() {
    let m = matrix(&os_arch());
    let verdicts = Some(vec![
        FilterVerdict::Pass,
        FilterVerdict::Failed("unknown field".to_string()),
    ]);
    match convert_matrix(&m, &verdicts) {
        Err(MatrixError::Filter(msg)) => assert_eq!(msg, "unknown field"),
        other => panic!("unexpected {:?}", other),
    }
}

#[test]
fn conversion_failure_of_a_survivor_is_an_error() {
    let def = vec![("n".to_string(), vec![SourceValue::Number(Number::PosInt(u64::MAX))])];
    let m = matrix(&def);
    match convert_matrix(&m, &None) {
        Err(MatrixError::Conversion(ConvError::InvalidNumber)) => {}
        other => panic!("unexpected {:?}", other),
    }
    let out = convert_matrix(&m, &Some(vec![FilterVerdict::Reject])).unwrap();
    assert!(out.is_empty());
}

#[test]
fn per_environment_render_has_one_scope_each() {
    let m = convert_matrix(&matrix(&os_arch()), &None).unwrap();
    let t = Template {
        source: "t.txt".to_string(),
        outpath: "out/{{os}}.txt".to_string(),
        squash: false,
    };
    let scopes = render_scopes(m, &t);
    assert_eq!(scopes.len(), 2);
    assert_eq!(template_text(lookup(&scopes[0], "os")), "linux");
    assert_eq!(template_text(lookup(&scopes[1], "os")), "mac");
}

#[test]
fn squash_render_has_one_scope() {
    let m = convert_matrix(&matrix(&os_arch()), &None).unwrap();
    let t = Template {
        source: "t.txt".to_string(),
        outpath: "out/all.txt".to_string(),
        squash: true,
    };
    let scopes = render_scopes(m, &t);
    assert_eq!(scopes.len(), 1);
    assert_eq!(scopes[0].len(), 1);
    assert_eq!(scopes[0][0].0, "squash");
    match &scopes[0][0].1 {
        TemplateValue::Array(items) => {
            assert_eq!(items.len(), 2);
            match &items[1] {
                TemplateValue::Object(env) => assert_eq!(template_text(lookup(env, "os")), "mac"),
                other => panic!("unexpected {:?}", other),
            }
        }
        other => panic!("unexpected {:?}", other),
    }
}

#[test]
fn squash_of_empty_matrix() {
    let scope = squash_scope(Vec::new());
    match &scope[0].1 {
        TemplateValue::Array(items) => assert!(items.is_empty()),
        other => panic!("unexpected {:?}", other),
    }
}

#[test]
fn command_scopes_follow_matrix_order() {
    let m = convert_matrix(&matrix(&os_arch()), &None).unwrap();
    let rendered: Vec<String> = m
        .iter()
        .map(|env| format!("echo {}", template_text(lookup(env, "os"))))
        .collect();
    assert_eq!(rendered, vec!["echo linux".to_string(), "echo mac".to_string()]);
}

#[test]
fn earliest_stopping_environment_decides_the_error() {
    let def = vec![(
        "n".to_string(),
        vec![SourceValue::Number(Number::PosInt(u64::MAX)), s("ok")],
    )];
    let m = matrix(&def);
    let verdicts = Some(vec![
        FilterVerdict::Pass,
        FilterVerdict::Failed("later".to_string()),
    ]);
    match convert_matrix(&m, &verdicts) {
        Err(MatrixError::Conversion(ConvError::InvalidNumber)) => {}
        other => panic!("unexpected {:?}", other),
    }
}
