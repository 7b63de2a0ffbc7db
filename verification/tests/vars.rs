use soymilk_curry::vars::CommandVars;
use std::collections::BTreeMap;

fn listed(vars: &CommandVars) -> Vec<(String, String)> {
    (0..vars.len())
        .map(|i| (vars.get(i).key.clone(), vars.get(i).value.clone()))
        .collect()
}

#[test]
fn variables_are_kept_in_the_order_of_their_names() {
    let pairs = [
        ("device", "1"),
        ("Device", "2"),
        ("a", "3"),
        ("", "4"),
        ("device2", "5"),
        ("\u{e9}", "6"),
        ("\u{ffff}", "7"),
        ("\u{10000}", "8"),
        ("z", "9"),
        ("device", "10"),
        ("a", "11"),
    ];
    let mut vars = CommandVars::new();
    let mut expected = BTreeMap::new();
    for (key, value) in pairs {
        vars.insert(key.into(), value.into());
        expected.insert(String::from(key), String::from(value));
    }
    assert_eq!(listed(&vars), expected.into_iter().collect::<Vec<_>>());
}

#[test]
fn a_value_takes_the_place_of_the_one_before() {
    let mut vars = CommandVars::new();
    vars.insert("device".into(), "0".into());
    vars.insert("device".into(), "1".into());
    assert_eq!(listed(&vars), vec![("device".into(), "1".into())]);
}
