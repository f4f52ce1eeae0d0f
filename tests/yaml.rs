use subgraph_mock::config::ConfigError;
use subgraph_mock::yaml::{merge_yaml, sets_port, split_overrides, ConfigTree};

fn s(x: &str) -> String {
    x.to_string()
}

fn leaf(v: i64) -> ConfigTree {
    ConfigTree::Leaf(serde_yaml::Value::from(v))
}

fn map(entries: Vec<(&str, ConfigTree)>) -> ConfigTree {
    ConfigTree::Mapping(entries.into_iter().map(|(k, v)| (s(k), v)).collect())
}

fn get<'a>(t: &'a ConfigTree, k: &str) -> &'a ConfigTree {
    match t {
        ConfigTree::Mapping(v) => &v.iter().find(|(key, _)| key == k).unwrap().1,
        ConfigTree::Leaf(_) => panic!("not a mapping"),
    }
}

fn leaf_value(t: &ConfigTree) -> &serde_yaml::Value {
    match t {
        ConfigTree::Leaf(v) => v,
        ConfigTree::Mapping(_) => panic!("not a leaf"),
    }
}

#[test]
fn merge_is_deep_for_mappings() {
    let mut base = map(vec![
        ("port", leaf(1)),
        ("response_generation", map(vec![("array", map(vec![("min_length", leaf(0)), ("max_length", leaf(10))]))])),
    ]);
    let over = map(vec![
        ("response_generation", map(vec![("array", map(vec![("min_length", leaf(11))]))])),
        ("cache_responses", ConfigTree::Leaf(serde_yaml::Value::Bool(false))),
    ]);
    merge_yaml(over, &mut base);
    let array = get(get(&base, "response_generation"), "array");
    assert_eq!(leaf_value(get(array, "min_length")), &serde_yaml::Value::from(11));
    assert_eq!(leaf_value(get(array, "max_length")), &serde_yaml::Value::from(10));
    assert_eq!(leaf_value(get(&base, "port")), &serde_yaml::Value::from(1));
    assert_eq!(leaf_value(get(&base, "cache_responses")), &serde_yaml::Value::Bool(false));
}

#[test]
fn merge_replaces_sequences_and_mismatches() {
    let seq = |xs: &[i64]| ConfigTree::Leaf(serde_yaml::Value::Sequence(xs.iter().map(|x| serde_yaml::Value::from(*x)).collect()));
    let mut base = map(vec![("list", seq(&[1, 2])), ("shape", map(vec![("a", leaf(1))]))]);
    merge_yaml(map(vec![("list", seq(&[3])), ("shape", leaf(5))]), &mut base);
    assert_eq!(leaf_value(get(&base, "list")), leaf_value(&seq(&[3])));
    assert_eq!(leaf_value(get(&base, "shape")), &serde_yaml::Value::from(5));
}

#[test]
fn split_takes_overrides_out() {
    let root = map(vec![
        ("port", leaf(9001)),
        ("subgraph_overrides", map(vec![("special", map(vec![("port", leaf(1))]))])),
        ("cache_responses", ConfigTree::Leaf(serde_yaml::Value::Bool(true))),
    ]);
    let (base, overrides) = split_overrides(root).unwrap();
    match &base {
        ConfigTree::Mapping(v) => {
            assert_eq!(v.iter().map(|(k, _)| k.clone()).collect::<Vec<_>>(), vec![s("port"), s("cache_responses")])
        }
        ConfigTree::Leaf(_) => panic!("base is a mapping"),
    }
    assert_eq!(overrides.len(), 1);
    assert_eq!(overrides[0].0, "special");
    assert!(sets_port(&overrides[0].1));
    assert!(sets_port(&base));
}

#[test]
fn split_errors() {
    assert_eq!(split_overrides(leaf(1)).unwrap_err(), ConfigError::NotAMapping);
    assert_eq!(
        split_overrides(map(vec![("subgraph_overrides", leaf(1))])).unwrap_err(),
        ConfigError::NotAMapping
    );
    assert_eq!(
        split_overrides(map(vec![("subgraph_overrides", map(vec![("a", leaf(1))]))])).unwrap_err(),
        ConfigError::OverrideNotAMapping
    );
    let (_, o) = split_overrides(map(vec![("port", leaf(1))])).unwrap();
    assert!(o.is_empty());
}
