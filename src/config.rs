use vstd::prelude::*;

use crate::codec::{json_fields, json_parsed, json_pretty, json_string, members_of};
use crate::codec::{members_view, object_value, parse_json, render_pretty, string_of, string_value};
use crate::store::{keys_distinct, lemma_map_of_at, map_of, opt_text};

verus! {

/// Where the snippet store lives.
pub struct SnipConfig {
    pub path: String,
}

/// What `PathBuf::push` makes of `base` with `rest` pushed onto it.
pub uninterp spec fn path_joined(base: Seq<char>, rest: Seq<char>) -> Seq<char>;

/// Relies on `std::path::PathBuf::push` and `to_string_lossy`: the joined
/// path, a function of the two texts.
#[verifier::external_body]
fn join_path(base: &str, rest: &str) -> (r: String)
    ensures
        r@ == path_joined(base@, rest@),
{
    let mut joined = std::path::PathBuf::from(base);
    joined.push(rest);
    joined.to_string_lossy().into_owned()
}

/// Relies on `dirs_next::home_dir`: the home directory, if one is known,
/// which depends on the environment.
#[verifier::external_body]
fn home_dir() -> (r: Option<String>) {
    dirs_next::home_dir().map(|p| p.to_string_lossy().into_owned())
}

/// The path used where a path starts with `~` and no home is known.
pub open spec fn fallback_path() -> Seq<char> {
    "/tmp/snip.json"@
}

/// `path` with a leading `~` and the character after it replaced by the
/// home directory.
pub open spec fn expanded(path: Seq<char>, home: Option<Seq<char>>) -> Seq<char> {
    if path.len() > 0 && path[0] == '~' {
        match home {
            Some(h) => path_joined(h, if path.len() >= 2 { path.skip(2) } else { Seq::empty() }),
            None => fallback_path(),
        }
    } else {
        path
    }
}

/// Expands a leading `~` against the given home directory.
pub fn expand_with_home(path: &str, home: Option<String>) -> (r: String)
    ensures
        r@ == expanded(path@, opt_text(home)),
{
    let n = path.unicode_len();
    if n > 0 && path.get_char(0) == '~' {
        match home {
            Some(h) => {
                if n >= 2 {
                    let rest = path.substring_char(2, n);
                    proof {
                        assert(rest@ =~= path@.skip(2));
                    }
                    join_path(h.as_str(), rest)
                } else {
                    proof {
                        reveal_strlit("");
                        assert(""@ =~= Seq::<char>::empty());
                    }
                    join_path(h.as_str(), "")
                }
            },
            None => {
                proof {
                    reveal_strlit("/tmp/snip.json");
                }
                String::from_str("/tmp/snip.json")
            },
        }
    } else {
        String::from_str(path)
    }
}

/// Expands a leading `~` against the user's home directory.
pub fn expand_home_dir(path: &str) -> (r: String)
    ensures
        exists|h: Option<Seq<char>>| r@ == expanded(path@, h),
{
    let home = home_dir();
    let ghost h = opt_text(home);
    let r = expand_with_home(path, home);
    proof {
        assert(r@ == expanded(path@, h));
    }
    r
}

/// The store path that a JSON value holds: an object with a string
/// member `path`.
pub open spec fn config_of_json(v: serde_json::Value) -> Option<Seq<char>> {
    match json_fields(v) {
        Some(f) => if f.contains_key("path"@) {
            json_string(f["path"@])
        } else {
            None
        },
        None => None,
    }
}

impl SnipConfig {
    /// Points the configuration at `new_path`, with a leading `~` expanded.
    pub fn update_path(&mut self, new_path: String)
        ensures
            exists|h: Option<Seq<char>>| final(self).path@ == expanded(new_path@, h),
    {
        self.path = expand_home_dir(new_path.as_str());
    }

    /// Reads a configuration from JSON text.
    pub fn from_json(text: &str) -> (r: Option<SnipConfig>)
        ensures
            match json_parsed_config(text@) {
                Some(p) => r is Some && r->0.path@ == p,
                None => r is None,
            },
    {
        let v = match parse_json(text) {
            Some(v) => v,
            None => return None,
        };
        let members = match members_of(&v) {
            Some(m) => m,
            None => return None,
        };
        let ghost mv = members_view(members@);
        let name = String::from_str("path");
        let mut j: usize = 0;
        while j < members.len()
            invariant
                mv == members_view(members@),
                json_parsed(text@) == Some(v),
                json_fields(v) is Some,
                map_of(mv) == json_fields(v)->0,
                keys_distinct(mv),
                name@ == "path"@,
                forall|k: int| 0 <= k < j ==> (#[trigger] mv[k]).0 != "path"@,
            decreases members@.len() - j,
        {
            proof {
                assert(mv[j as int] == (members@[j as int].0@, members@[j as int].1));
            }
            if members[j].0 == name {
                proof {
                    lemma_map_of_at(mv, j as int);
                }
                let found = string_of(&members[j].1);
                proof {
                    assert(json_fields(v)->0["path"@] == members@[j as int].1);
                    assert(json_parsed_config(text@) == json_string(members@[j as int].1));
                }
                return match found {
                    Some(p) => Some(SnipConfig { path: p }),
                    None => None,
                };
            }
            j = j + 1;
        }
        proof {
            if json_fields(v)->0.contains_key("path"@) {
                let a = choose|a: int| 0 <= a < mv.len() && mv[a].0 == "path"@;
                assert(mv[a].0 != "path"@);
            }
        }
        None
    }

    /// Writes the configuration as indented JSON.
    pub fn to_json(&self) -> (r: String)
        ensures
            exists|v: serde_json::Value| config_of_json(v) == Some(self.path@) && r@ == json_pretty(v),
    {
        let mut members: Vec<(String, serde_json::Value)> = Vec::new();
        members.push((String::from_str("path"), string_value(self.path.clone())));
        let ghost mv = members_view(members@);
        proof {
            assert(mv[0].0 == "path"@);
            assert(keys_distinct(mv));
        }
        let v = object_value(members);
        proof {
            lemma_map_of_at(mv, 0);
        }
        render_pretty(&v)
    }
}

/// The store path held by configuration text, if it is JSON that holds one.
pub open spec fn json_parsed_config(text: Seq<char>) -> Option<Seq<char>> {
    match json_parsed(text) {
        Some(v) => config_of_json(v),
        None => None,
    }
}

} // verus!
