//! The configuration file.
//!
//! One boolean preference, stored as a flat JSON object in a small file. The
//! codec here is the computing half of load and save: the caller reads or
//! writes the bytes on disk and hands them to these functions. A file that
//! does not parse falls back to the defaults, so loading never fails.

use vstd::prelude::*;
use vstd::std_specs::cmp::PartialEqSpec;

verus! {

#[derive(Clone, Copy, PartialEq, Eq, Structural, Debug)]
pub struct Config {
    pub show_home_on_startup: bool,
}

impl Default for Config {
    /// The defaults used when no configuration file can be read.
    fn default() -> (c: Config)
        ensures
            c.show_home_on_startup,
    {
        Config { show_home_on_startup: true }
    }
}

/// The bytes of `"show_home_on_startup"` without the quotes.
pub open spec fn config_key_bytes() -> Seq<u8> {
    seq![
        115u8, 104u8, 111u8, 119u8, 95u8, 104u8, 111u8, 109u8, 101u8, 95u8, 111u8, 110u8, 95u8,
        115u8, 116u8, 97u8, 114u8, 116u8, 117u8, 112u8,
    ]
}

/// The bytes of `true` or `false`.
pub open spec fn bool_bytes(b: bool) -> Seq<u8> {
    if b {
        seq![116u8, 114u8, 117u8, 101u8]
    } else {
        seq![102u8, 97u8, 108u8, 115u8, 101u8]
    }
}

/// The canonical serialized form: `{"show_home_on_startup":<bool>}`.
pub open spec fn config_json(b: bool) -> Seq<u8> {
    seq![123u8, 34u8] + config_key_bytes() + seq![34u8, 58u8] + bool_bytes(b) + seq![125u8]
}

/// The four JSON whitespace bytes: space, tab, line feed, carriage return.
pub open spec fn is_json_ws(b: u8) -> bool {
    b == 32 || b == 9 || b == 10 || b == 13
}

/// The input with every JSON whitespace byte removed.
pub open spec fn strip_ws(s: Seq<u8>) -> Seq<u8>
    decreases s.len(),
{
    if s.len() == 0 {
        Seq::empty()
    } else {
        let rest = strip_ws(s.drop_last());
        if is_json_ws(s.last()) {
            rest
        } else {
            rest.push(s.last())
        }
    }
}

/// What a configuration file means: whitespace aside, it must spell the
/// canonical object with a `true` or a `false`; anything else is malformed.
pub open spec fn parse_config(s: Seq<u8>) -> Option<bool> {
    if strip_ws(s) == config_json(true) {
        Some(true)
    } else if strip_ws(s) == config_json(false) {
        Some(false)
    } else {
        None
    }
}

proof fn lemma_strip_ws_id(s: Seq<u8>)
    requires
        forall|j: int| 0 <= j < s.len() ==> !is_json_ws(s[j]),
    ensures
        strip_ws(s) == s,
    decreases s.len(),
{
    if s.len() == 0 {
        assert(strip_ws(s) =~= s);
    } else {
        lemma_strip_ws_id(s.drop_last());
        assert(strip_ws(s) =~= s);
    }
}

/// The canonical form holds no whitespace, so it parses back to the value it
/// encodes: saving and then loading keeps the preference.
pub proof fn lemma_config_round_trip(b: bool)
    ensures
        parse_config(config_json(b)) == Some(b),
{
    assert(forall|j: int| 0 <= j < config_json(b).len() ==> !is_json_ws(config_json(b)[j]));
    lemma_strip_ws_id(config_json(b));
    assert(config_json(true).len() != config_json(false).len());
}

impl Config {
    /// Serializes the configuration into its canonical JSON bytes.
    pub fn to_json_bytes(&self) -> (r: Vec<u8>)
        ensures
            r@ == config_json(self.show_home_on_startup),
    {
        let mut r: Vec<u8> = Vec::new();
        r.push(123);
        r.push(34);
        r.push(115);
        r.push(104);
        r.push(111);
        r.push(119);
        r.push(95);
        r.push(104);
        r.push(111);
        r.push(109);
        r.push(101);
        r.push(95);
        r.push(111);
        r.push(110);
        r.push(95);
        r.push(115);
        r.push(116);
        r.push(97);
        r.push(114);
        r.push(116);
        r.push(117);
        r.push(112);
        r.push(34);
        r.push(58);
        if self.show_home_on_startup {
            r.push(116);
            r.push(114);
            r.push(117);
            r.push(101);
        } else {
            r.push(102);
            r.push(97);
            r.push(108);
            r.push(115);
            r.push(101);
        }
        r.push(125);
        proof {
            assert(r@ =~= config_json(self.show_home_on_startup));
        }
        r
    }

    /// Parses configuration file bytes; `None` when the file is malformed.
    pub fn parse_json(s: &Vec<u8>) -> (r: Option<Config>)
        ensures
            match r {
                Some(c) => parse_config(s@) == Some(c.show_home_on_startup),
                None => parse_config(s@) is None,
            },
    {
        let mut stripped: Vec<u8> = Vec::new();
        let mut i: usize = 0;
        while i < s.len()
            invariant
                0 <= i <= s@.len(),
                stripped@ == strip_ws(s@.take(i as int)),
            decreases s@.len() - i,
        {
            let b = s[i];
            proof {
                assert(s@.take(i + 1).drop_last() =~= s@.take(i as int));
                assert(s@.take(i + 1).last() == s@[i as int]);
            }
            if !(b == 32 || b == 9 || b == 10 || b == 13) {
                stripped.push(b);
            }
            i = i + 1;
        }
        proof {
            assert(s@.take(s@.len() as int) =~= s@);
        }
        let canon_true = (Config { show_home_on_startup: true }).to_json_bytes();
        let is_true = stripped == canon_true;
        proof {
            if is_true {
                assert(stripped@ =~= canon_true@);
            } else if stripped@ == canon_true@ {
                assert(stripped.eq_spec(&canon_true));
            }
        }
        if is_true {
            return Some(Config { show_home_on_startup: true });
        }
        let canon_false = (Config { show_home_on_startup: false }).to_json_bytes();
        let is_false = stripped == canon_false;
        proof {
            if is_false {
                assert(stripped@ =~= canon_false@);
            } else if stripped@ == canon_false@ {
                assert(stripped.eq_spec(&canon_false));
            }
        }
        if is_false {
            return Some(Config { show_home_on_startup: false });
        }
        None
    }

    /// The computing half of loading: the parsed value, or the defaults when
    /// the bytes are malformed.
    pub fn from_json_or_default(s: &Vec<u8>) -> (c: Config)
        ensures
            c.show_home_on_startup == match parse_config(s@) {
                Some(b) => b,
                None => true,
            },
    {
        match Config::parse_json(s) {
            Some(c) => c,
            None => Config { show_home_on_startup: true },
        }
    }
}

} // verus!
