//! Configuration documents as trees of mappings, and the deep merge that
//! lays a subgraph's overrides over the base configuration.
use crate::config::ConfigError;
use crate::entries::{
    find_pos, key_pos, lemma_key_pos_push, lemma_key_pos_range, lemma_key_pos_same_keys,
};
use vstd::prelude::*;
use vstd::string::StringExecFns;

verus! {

#[verifier::external_type_specification]
#[verifier::external_body]
pub struct ExYamlValue(serde_yaml::Value);

/// A configuration document: mappings keyed by strings down to leaves, which
/// hold any other YAML value (scalars and sequences) as read.
#[derive(Debug)]
pub enum ConfigTree {
    Mapping(Vec<(String, ConfigTree)>),
    Leaf(serde_yaml::Value),
}

/// `m` is `o` laid over `b`: two mappings merge key by key (a key of both
/// takes the merge of its two values, a key of one keeps its value); in any
/// other case the override replaces the base, so sequences are replaced, not
/// concatenated.
pub open spec fn is_merge(o: ConfigTree, b: ConfigTree, m: ConfigTree) -> bool
    decreases o,
{
    match o {
        ConfigTree::Mapping(ov) => match b {
            ConfigTree::Mapping(bv) => match m {
                ConfigTree::Mapping(mv) => forall|k: Seq<char>| {
                    let i = #[trigger] key_pos(ov@, k);
                    let j = key_pos(bv@, k);
                    let l = key_pos(mv@, k);
                    if 0 <= i < ov@.len() && j >= 0 {
                        0 <= l < mv@.len() && 0 <= j < bv@.len() && is_merge(ov@[i].1, bv@[j].1, mv@[l].1)
                    } else if 0 <= i < ov@.len() {
                        0 <= l < mv@.len() && mv@[l].1 == ov@[i].1
                    } else if j >= 0 {
                        0 <= l < mv@.len() && 0 <= j < bv@.len() && mv@[l].1 == bv@[j].1
                    } else {
                        l < 0
                    }
                },
                ConfigTree::Leaf(_) => false,
            },
            ConfigTree::Leaf(_) => m == o,
        },
        ConfigTree::Leaf(_) => m == o,
    }
}

/// The merge invariant for a mapping `m` that started as `bv` and has taken
/// the entries of `ov` so far (`ov` being a prefix of the override).
pub open spec fn merged_so_far(
    ov: Seq<(String, ConfigTree)>,
    bv: Seq<(String, ConfigTree)>,
    m: Seq<(String, ConfigTree)>,
    k: Seq<char>,
) -> bool {
    let i = key_pos(ov, k);
    let j = key_pos(bv, k);
    let l = key_pos(m, k);
    if i < 0 {
        l == j && (j >= 0 ==> 0 <= j < m.len() && 0 <= j < bv.len() && m[j].1 == bv[j].1)
    } else {
        &&& 0 <= i < ov.len()
        &&& 0 <= l < m.len()
        &&& (j >= 0 ==> 0 <= j < bv.len() && is_merge(ov[i].1, bv[j].1, m[l].1))
        &&& (j < 0 ==> m[l].1 == ov[i].1)
    }
}

/// Lays the tree `o` over `b`.
pub fn merged(o: ConfigTree, b: ConfigTree) -> (m: ConfigTree)
    ensures
        is_merge(o, b, m),
    decreases o,
{
    let ghost o0 = o;
    match o {
        ConfigTree::Mapping(ov) => match b {
            ConfigTree::Mapping(bv) => {
                let ghost ov0 = ov@;
                let ghost ovg = ov;
                assert(o0 == ConfigTree::Mapping(ovg));
                let ghost bv0 = bv@;
                let n = ov.len();
                let mut m = bv;
                let mut rest = ov;
                let mut seen: Vec<(String, ())> = Vec::new();
                let mut i: usize = 0;
                proof {
                    assert(ov0.subrange(0, 0) =~= Seq::<(String, ConfigTree)>::empty());
                    assert forall|k: Seq<char>| merged_so_far(ov0.subrange(0, 0), bv0, m@, k) by {
                        lemma_key_pos_range(bv0, k);
                    }
                }
                while rest.len() > 0
                    invariant
                        n == ov0.len(),
                        i <= n,
                        i + rest@.len() == n,
                        rest@ == ov0.subrange(i as int, n as int),
                        o0 == ConfigTree::Mapping(ovg),
                        o0 == o,
                        ovg@ == ov0,
                        seen@.len() == i,
                        forall|t: int| 0 <= t < i ==> (#[trigger] seen@[t]).0@ == ov0[t].0@,
                        m@.len() >= bv0.len(),
                        forall|t: int| 0 <= t < bv0.len() ==> (#[trigger] m@[t]).0@ == bv0[t].0@,
                        forall|k: Seq<char>| #[trigger] merged_so_far(ov0.subrange(0, i as int), bv0, m@, k),
                    decreases rest@.len(),
                {
                    let ghost pre = ov0.subrange(0, i as int);
                    let ghost m0 = m@;
                    let (k, x) = rest.remove(0);
                    assert((k, x) == ov0[i as int]);
                    proof {
                        assert(pre.push(ov0[i as int]) =~= ov0.subrange(0, i + 1));
                        lemma_key_pos_same_keys(seen@, pre, k@);
                    }
                    if find_pos(&seen, &k).is_some() {
                        // a repeated key: its first occurrence has been merged
                        proof {
                            assert forall|q: Seq<char>| #[trigger] merged_so_far(ov0.subrange(0, i + 1), bv0, m@, q) by {
                                lemma_key_pos_push(pre, ov0[i as int], q);
                                assert(merged_so_far(pre, bv0, m@, q));
                                lemma_key_pos_range(pre, q);
                            }
                        }
                        seen.push((k, ()));
                    } else {
                        let key = k.clone();
                        match find_pos(&m, &k) {
                            Some(j) => {
                                proof {
                                    lemma_key_pos_range(m0, k@);
                                }
                                let (k2, y) = m.remove(j);
                                proof {
                                    assert(merged_so_far(pre, bv0, m0, k@));
                                    assert(decreases_to!(o0 => ov0[i as int].1)) by {
                                        assert(decreases_to!(o0 => o0->Mapping_0));
                                        assert(decreases_to!(ovg => ovg@));
                                        assert(decreases_to!(ovg@ => ovg@[i as int]));
                                        assert(decreases_to!(ovg@[i as int] => ovg@[i as int].1));
                                    };
                                }
                                let z = merged(x, y);
                                m.insert(j, (k2, z));
                                proof {
                                    assert(m@ =~= m0.update(j as int, (k2, z)));
                                    assert forall|q: Seq<char>| #[trigger] merged_so_far(ov0.subrange(0, i + 1), bv0, m@, q) by {
                                        lemma_key_pos_push(pre, ov0[i as int], q);
                                        lemma_key_pos_same_keys(m0, m@, q);
                                        lemma_key_pos_range(m0, q);
                                        lemma_key_pos_range(pre, q);
                                        lemma_key_pos_range(bv0, q);
                                        assert(merged_so_far(pre, bv0, m0, q));
                                    }
                                }
                            },
                            None => {
                                m.push((k, x));
                                proof {
                                    assert forall|q: Seq<char>| #[trigger] merged_so_far(ov0.subrange(0, i + 1), bv0, m@, q) by {
                                        lemma_key_pos_push(pre, ov0[i as int], q);
                                        lemma_key_pos_push(m0, (key, ov0[i as int].1), q);
                                        lemma_key_pos_range(m0, q);
                                        lemma_key_pos_range(pre, q);
                                        lemma_key_pos_range(bv0, q);
                                        assert(merged_so_far(pre, bv0, m0, q));
                                        if key_pos(pre, q) < 0 && key_pos(bv0, q) >= 0 {
                                            assert(m@[key_pos(bv0, q)] == m0[key_pos(bv0, q)]);
                                        }
                                        if key_pos(pre, q) >= 0 {
                                            assert(m@[key_pos(m0, q)] == m0[key_pos(m0, q)]);
                                        }
                                    }
                                }
                            },
                        }
                        seen.push((key, ()));
                    }
                    i += 1;
                }
                proof {
                    assert(ov0.subrange(0, n as int) =~= ov0);
                    let mm = ConfigTree::Mapping(m);
                    assert forall|q: Seq<char>| {
                        let a = #[trigger] key_pos(ov0, q);
                        let c = key_pos(bv0, q);
                        let l = key_pos(m@, q);
                        if 0 <= a < ov0.len() && c >= 0 {
                            0 <= l < m@.len() && 0 <= c < bv0.len() && is_merge(ov0[a].1, bv0[c].1, m@[l].1)
                        } else if 0 <= a < ov0.len() {
                            0 <= l < m@.len() && m@[l].1 == ov0[a].1
                        } else if c >= 0 {
                            0 <= l < m@.len() && 0 <= c < bv0.len() && m@[l].1 == bv0[c].1
                        } else {
                            l < 0
                        }
                    } by {
                        assert(merged_so_far(ov0, bv0, m@, q));
                        lemma_key_pos_range(ov0, q);
                    }
                }
                ConfigTree::Mapping(m)
            },
            ConfigTree::Leaf(_) => ConfigTree::Mapping(ov),
        },
        ConfigTree::Leaf(v) => ConfigTree::Leaf(v),
    }
}

/// Lays `overrides` over `base` in place.
pub fn merge_yaml(overrides: ConfigTree, base: &mut ConfigTree)
    ensures
        is_merge(overrides, *old(base), *final(base)),
{
    let mut b = ConfigTree::Mapping(Vec::new());
    core::mem::swap(base, &mut b);
    *base = merged(overrides, b);
}

/// A configuration document split into the base configuration and the
/// per-subgraph overrides, each by subgraph name.
pub type SplitConfig = (ConfigTree, Vec<(String, ConfigTree)>);

/// The key under which a configuration document holds per-subgraph
/// overrides.
pub open spec fn overrides_key() -> Seq<char> {
    "subgraph_overrides"@
}

/// Every entry holds a mapping.
pub open spec fn all_mappings(s: Seq<(String, ConfigTree)>) -> bool {
    forall|i: int| 0 <= i < s.len() ==> (#[trigger] s[i]).1 is Mapping
}

/// Takes the overrides out of a configuration document. The document must be
/// a mapping; its `subgraph_overrides` entry, when present, must be a mapping
/// of mappings.
pub fn split_overrides(root: ConfigTree) -> (r: Result<SplitConfig, ConfigError>)
    ensures
        match root {
            ConfigTree::Leaf(_) => r == Err::<SplitConfig, ConfigError>(ConfigError::NotAMapping),
            ConfigTree::Mapping(rv) => {
                let p = key_pos(rv@, overrides_key());
                if p < 0 {
                    r matches Ok((ConfigTree::Mapping(bv), ovs)) && bv@ == rv@ && ovs@.len() == 0
                } else {
                    match rv@[p].1 {
                        ConfigTree::Leaf(_) => r == Err::<SplitConfig, ConfigError>(
                            ConfigError::NotAMapping,
                        ),
                        ConfigTree::Mapping(ov) => if all_mappings(ov@) {
                            r matches Ok((ConfigTree::Mapping(bv), ovs)) && bv@ == rv@.remove(p)
                                && ovs@ == ov@
                        } else {
                            r == Err::<SplitConfig, ConfigError>(ConfigError::OverrideNotAMapping)
                        },
                    }
                }
            },
        },
{
    let ghost root0 = root;
    match root {
        ConfigTree::Leaf(_) => Err(ConfigError::NotAMapping),
        ConfigTree::Mapping(rv) => {
            let ghost rv0 = rv@;
            let key = String::from_str("subgraph_overrides");
            proof {
                reveal_strlit("subgraph_overrides");
            }
            assert(key@ == overrides_key());
            match find_pos(&rv, &key) {
                None => Ok((ConfigTree::Mapping(rv), Vec::new())),
                Some(p) => {
                    proof {
                        lemma_key_pos_range(rv0, overrides_key());
                    }
                    let mut rv = rv;
                    let (_k, section) = rv.remove(p);
                    let ghost sec0 = section;
                    match section {
                        ConfigTree::Leaf(_) => Err(ConfigError::NotAMapping),
                        ConfigTree::Mapping(ovs) => {
                            let mut i: usize = 0;
                            while i < ovs.len()
                                invariant
                                    i <= ovs@.len(),
                                    forall|t: int| 0 <= t < i ==> (#[trigger] ovs@[t]).1 is Mapping,
                                    root0 matches ConfigTree::Mapping(v) && v@ == rv0,
                                    root0 == root,
                                    key_pos(rv0, overrides_key()) == p as int,
                                    0 <= p < rv0.len(),
                                    rv0[p as int].1 == sec0,
                                    sec0 == ConfigTree::Mapping(ovs),
                                decreases ovs@.len() - i,
                            {
                                match &ovs[i].1 {
                                    ConfigTree::Leaf(_) => {
                                        assert(!(ovs@[i as int].1 is Mapping));
                                        assert(!all_mappings(ovs@));
                                        return Err(ConfigError::OverrideNotAMapping);
                                    },
                                    ConfigTree::Mapping(_) => {},
                                }
                                i += 1;
                            }
                            Ok((ConfigTree::Mapping(rv), ovs))
                        },
                    }
                },
            }
        },
    }
}

/// Whether an override sets `port`, which only the base configuration may.
pub fn sets_port(o: &ConfigTree) -> (r: bool)
    ensures
        r == (o matches ConfigTree::Mapping(v) && key_pos(v@, "port"@) >= 0),
{
    match o {
        ConfigTree::Mapping(v) => {
            let key = String::from_str("port");
            find_pos(v, &key).is_some()
        },
        ConfigTree::Leaf(_) => false,
    }
}

} // verus!
