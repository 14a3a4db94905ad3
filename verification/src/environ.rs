use vstd::prelude::*;

verus! {

use crate::text::chars_of;
use crate::text::contains_char;
use crate::text::seq_contains_char;
use crate::text::spec_split;
use crate::text::spec_take_until;
use crate::text::spec_u64_dec;
use crate::text::split;
use crate::text::string_from_chars;
use crate::text::subrange_of;
use crate::text::take_until;
use crate::text::u64_to_dec;

/// The executor-side copy of the user's environment: variable names
/// paired with values, as received from the environment block.
pub struct Env {
    pub pairs: Vec<(String, String)>,
}

/// The pairs read as a map; a later entry for the same name wins.
pub open spec fn spec_pairs_map(pairs: Seq<(String, String)>) -> Map<Seq<char>, Seq<char>>
    decreases pairs.len(),
{
    if pairs.len() == 0 {
        Map::empty()
    } else {
        spec_pairs_map(pairs.drop_last()).insert(pairs.last().0@, pairs.last().1@)
    }
}

/// The environment denoted by a newline-separated `KEY=VALUE` block:
/// each line is split at its first `=`, lines without one are skipped,
/// and a later line for the same key wins.
pub open spec fn spec_env_map_of(lines: Seq<Seq<char>>) -> Map<Seq<char>, Seq<char>>
    decreases lines.len(),
{
    if lines.len() == 0 {
        Map::empty()
    } else {
        let m = spec_env_map_of(lines.drop_last());
        let line = lines.last();
        if seq_contains_char(line, '=') {
            let key = spec_take_until(line, '=');
            m.insert(key, line.skip(key.len() as int + 1))
        } else {
            m
        }
    }
}

pub open spec fn spec_env_map(s: Seq<char>) -> Map<Seq<char>, Seq<char>> {
    spec_env_map_of(spec_split(s, '\n'))
}

proof fn lemma_take_until_short(s: Seq<char>, c: char)
    requires
        seq_contains_char(s, c),
    ensures
        spec_take_until(s, c).len() < s.len(),
    decreases s.len(),
{
    assert(s.len() > 0);
    if s[0] != c {
        assert(seq_contains_char(s.drop_first(), c)) by {
            let i = choose|i: int| 0 <= i < s.len() && s[i] == c;
            assert(s.drop_first()[i - 1] == c);
        }
        lemma_take_until_short(s.drop_first(), c);
    }
}

impl Env {
    /// The environment as a map.
    pub open spec fn as_map(self) -> Map<Seq<char>, Seq<char>> {
        spec_pairs_map(self.pairs@)
    }

    /// Builds the environment from a `KEY=VALUE` block.
    pub fn construct(env: &str) -> (r: Env)
        ensures
            r.as_map() == spec_env_map(env@),
    {
        let chars = chars_of(env);
        let lines = split(&chars, '\n');
        let ghost lv = spec_split(env@, '\n');
        let mut pairs: Vec<(String, String)> = Vec::new();
        let mut i: usize = 0;
        proof {
            assert(spec_pairs_map(pairs@) =~= spec_env_map_of(lv.take(0)));
        }
        while i < lines.len()
            invariant
                i <= lines@.len(),
                crate::text::views(lines@) == lv,
                spec_pairs_map(pairs@) =~= spec_env_map_of(lv.take(i as int)),
            decreases lines@.len() - i,
        {
            proof {
                assert(crate::text::views(lines@)[i as int] == lines@[i as int]@);
                assert(lv.take(i + 1).drop_last() =~= lv.take(i as int));
                assert(lv.take(i + 1).last() == lv[i as int]);
            }
            let line = &lines[i];
            if contains_char(line, '=') {
                let key = take_until(line, '=');
                proof {
                    lemma_take_until_short(line@, '=');
                }
                let value = subrange_of(line, key.len() + 1, line.len());
                proof {
                    assert(value@ =~= lv[i as int].skip(
                        spec_take_until(lv[i as int], '=').len() as int + 1,
                    ));
                }
                let ghost old_pairs = pairs@;
                pairs.push((string_from_chars(&key), string_from_chars(&value)));
                proof {
                    assert(pairs@.drop_last() =~= old_pairs);
                    assert(spec_pairs_map(pairs@) =~= spec_env_map_of(lv.take(i + 1)));
                }
            }
            i = i + 1;
        }
        proof {
            assert(lv.take(lv.len() as int) =~= lv);
        }
        Env { pairs }
    }

    /// Looks a variable up; with several entries of one name, the
    /// latest wins.
    pub fn get(&self, name: &str) -> (r: Option<String>)
        ensures
            match r {
                Some(v) => self.as_map().contains_key(name@) && v@ == self.as_map()[name@],
                None => !self.as_map().contains_key(name@),
            },
    {
        let nm = chars_of(name);
        let mut i: usize = self.pairs.len();
        proof {
            assert(self.pairs@.take(self.pairs@.len() as int) =~= self.pairs@);
        }
        while i > 0
            invariant
                i <= self.pairs@.len(),
                nm@ == name@,
                spec_pairs_map(self.pairs@).contains_key(name@) == spec_pairs_map(
                    self.pairs@.take(i as int),
                ).contains_key(name@),
                spec_pairs_map(self.pairs@).contains_key(name@) ==> spec_pairs_map(
                    self.pairs@,
                )[name@] == spec_pairs_map(self.pairs@.take(i as int))[name@],
            decreases i,
        {
            i = i - 1;
            proof {
                assert(self.pairs@.take(i + 1).drop_last() =~= self.pairs@.take(i as int));
                assert(self.pairs@.take(i + 1).last() == self.pairs@[i as int]);
            }
            let key_chars = chars_of(self.pairs[i].0.as_str());
            if crate::text::text_eq(&key_chars, &nm) {
                return Some(self.pairs[i].1.clone());
            }
        }
        proof {
            assert(self.pairs@.take(0) =~= Seq::<(String, String)>::empty());
        }
        None
    }

    /// The HOME directory, when the environment names one.
    pub fn fetch_home(&self) -> (r: Option<String>)
        ensures
            match r {
                Some(v) => self.as_map().contains_key("HOME"@) && v@ == self.as_map()["HOME"@],
                None => !self.as_map().contains_key("HOME"@),
            },
    {
        self.get("HOME")
    }

    /// Where the configuration directory stands by default: under
    /// XDG_CONFIG_HOME, else under HOME/.config, else under /etc.
    pub open spec fn spec_config_base(self) -> Seq<char> {
        if self.as_map().contains_key("XDG_CONFIG_HOME"@) {
            self.as_map()["XDG_CONFIG_HOME"@]
        } else if self.as_map().contains_key("HOME"@) {
            self.as_map()["HOME"@] + "/.config"@
        } else {
            "/etc"@
        }
    }

    /// The path of the configuration file: the configuration base with
    /// `/swhkd/swhkdrc` appended.
    pub fn fetch_xdg_config_path(&self) -> (r: String)
        ensures
            r@ == self.spec_config_base() + "/swhkd/swhkdrc"@,
    {
        let mut base: Vec<char> = match self.get("XDG_CONFIG_HOME") {
            Some(v) => chars_of(v.as_str()),
            None => match self.fetch_home() {
                Some(h) => {
                    let mut b = chars_of(h.as_str());
                    let mut suffix = chars_of("/.config");
                    b.append(&mut suffix);
                    b
                },
                None => chars_of("/etc"),
            },
        };
        let mut tail = chars_of("/swhkd/swhkdrc");
        base.append(&mut tail);
        string_from_chars(&base)
    }

    /// The data directory: XDG_DATA_HOME, else HOME/.local/share, else
    /// /etc.
    pub open spec fn spec_data_path(self) -> Seq<char> {
        if self.as_map().contains_key("XDG_DATA_HOME"@) {
            self.as_map()["XDG_DATA_HOME"@]
        } else if self.as_map().contains_key("HOME"@) {
            self.as_map()["HOME"@] + "/.local/share"@
        } else {
            "/etc"@
        }
    }

    pub fn fetch_xdg_data_path(&self) -> (r: String)
        ensures
            r@ == self.spec_data_path(),
    {
        match self.get("XDG_DATA_HOME") {
            Some(v) => v,
            None => match self.fetch_home() {
                Some(h) => {
                    let mut b = chars_of(h.as_str());
                    let mut suffix = chars_of("/.local/share");
                    b.append(&mut suffix);
                    string_from_chars(&b)
                },
                None => {
                    let b = chars_of("/etc");
                    string_from_chars(&b)
                },
            },
        }
    }

    /// The runtime directory: XDG_RUNTIME_DIR, else `/run/user/` with
    /// the invoking uid.
    pub open spec fn spec_runtime_dir(self, uid: u32) -> Seq<char> {
        if self.as_map().contains_key("XDG_RUNTIME_DIR"@) {
            self.as_map()["XDG_RUNTIME_DIR"@]
        } else {
            "/run/user/"@ + spec_u64_dec(uid as u64)
        }
    }

    pub fn xdg_runtime_dir(&self, uid: u32) -> (r: String)
        ensures
            r@ == self.spec_runtime_dir(uid),
    {
        match self.get("XDG_RUNTIME_DIR") {
            Some(v) => v,
            None => {
                let mut b = chars_of("/run/user/");
                let mut digits = u64_to_dec(uid as u64);
                b.append(&mut digits);
                string_from_chars(&b)
            },
        }
    }
}

} // verus!
