//! Configuration: the option syntax `name:value` and the parsed command
//! line as plain data.  Argument parsing itself happens outside the library.

use vstd::prelude::*;

verus! {

/// One configuration option: a name, and a possibly empty value.
#[derive(Debug, PartialEq)]
pub struct ConfigOption {
    pub name: Vec<u8>,
    pub value: Vec<u8>,
}

/// Chat options: the chat partner and the displayed user name.
pub struct ChatOpts {
    pub peer: Vec<u8>,
    pub name: Option<Vec<u8>>,
}

/// Daemon options: the options to set at startup.
pub struct DaemonOpts {
    pub set: Vec<ConfigOption>,
}

/// Get options: the names to read.
pub struct GetOpts {
    pub info: Vec<Vec<u8>>,
}

/// Set options: the options to change.
pub struct SetOpts {
    pub opts: Vec<ConfigOption>,
}

/// The subcommand to run.
pub enum Command {
    Daemon(DaemonOpts),
    Get(GetOpts),
    Put(SetOpts),
    Chat(ChatOpts),
    Files,
}

/// The parsed command line: the socket directory and the subcommand.
pub struct Config {
    pub dir: Option<Vec<u8>>,
    pub command: Option<Command>,
}

/// The colon that separates an option's name from its value.
pub open spec fn colon() -> u8 {
    58u8
}

/// The number of colons in `s`.
pub open spec fn colon_count(s: Seq<u8>) -> int
    decreases s.len(),
{
    if s.len() == 0 {
        0
    } else {
        colon_count(s.drop_last()) + if s.last() == colon() {
            1int
        } else {
            0int
        }
    }
}

impl ConfigOption {
    /// Parse `name:value`: no colon gives an empty value, one colon splits
    /// there, more than one colon is rejected.
    pub fn from_str(s: &Vec<u8>) -> (r: Option<ConfigOption>)
        ensures
            match r {
                Some(o) => (colon_count(s@) == 0 && o.name@ == s@ && o.value@
                    == Seq::<u8>::empty()) || (colon_count(s@) == 1 && exists|k: int|
                    0 <= k < s@.len() && s@[k] == colon() && o.name@ == s@.subrange(0, k)
                        && o.value@ == s@.subrange(k + 1, s@.len() as int)),
                None => colon_count(s@) > 1,
            },
    {
        let mut split: Option<usize> = None;
        let mut i: usize = 0;
        while i < s.len()
            invariant
                i <= s@.len(),
                match split {
                    Some(k) => k < i && s@[k as int] == colon() && colon_count(
                        s@.subrange(0, i as int),
                    ) == 1 && (forall|j: int|
                        0 <= j < i && j != k ==> s@[j] != colon()),
                    None => colon_count(s@.subrange(0, i as int)) == 0 && (forall|j: int|
                        0 <= j < i ==> s@[j] != colon()),
                },
            decreases s@.len() - i,
        {
            proof {
                assert(s@.subrange(0, i + 1).drop_last() =~= s@.subrange(0, i as int));
                assert(s@.subrange(0, i + 1).last() == s@[i as int]);
            }
            if s[i] == 58 {
                match split {
                    Some(_) => {
                        proof {
                            lemma_colon_count_prefix(s@, i + 1);
                        }
                        return None;
                    },
                    None => {
                        split = Some(i);
                    },
                }
            }
            i = i + 1;
        }
        proof {
            assert(s@.subrange(0, s@.len() as int) =~= s@);
        }
        match split {
            None => {
                Some(ConfigOption { name: crate::message::clone_bytes(s), value: Vec::new() })
            },
            Some(k) => {
                let mut name: Vec<u8> = Vec::new();
                let mut j: usize = 0;
                while j < k
                    invariant
                        j <= k <= s@.len(),
                        name@ == s@.subrange(0, j as int),
                    decreases k - j,
                {
                    name.push(s[j]);
                    proof {
                        assert(s@.subrange(0, j + 1) =~= s@.subrange(0, j as int).push(
                            s@[j as int],
                        ));
                    }
                    j = j + 1;
                }
                let mut value: Vec<u8> = Vec::new();
                let mut j2: usize = k + 1;
                while j2 < s.len()
                    invariant
                        k < j2 <= s@.len() || (k + 1 > s@.len() as int && j2 == k + 1),
                        k < s@.len(),
                        value@ == s@.subrange(k + 1, j2 as int),
                    decreases s@.len() - j2,
                {
                    value.push(s[j2]);
                    proof {
                        assert(s@.subrange(k + 1, j2 + 1) =~= s@.subrange(k + 1, j2 as int).push(
                            s@[j2 as int],
                        ));
                    }
                    j2 = j2 + 1;
                }
                proof {
                    assert(name@ =~= s@.subrange(0, k as int));
                    assert(value@ =~= s@.subrange(k + 1, s@.len() as int));
                }
                Some(ConfigOption { name, value })
            },
        }
    }
}

/// A prefix with two colons gives the whole sequence more than one.
proof fn lemma_colon_count_prefix(s: Seq<u8>, i: int)
    requires
        0 <= i <= s.len(),
        colon_count(s.subrange(0, i)) > 1,
    ensures
        colon_count(s) > 1,
    decreases s.len() - i,
{
    if i == s.len() {
        assert(s.subrange(0, i) =~= s);
    } else {
        assert(s.subrange(0, i + 1).drop_last() =~= s.subrange(0, i));
        assert(colon_count(s.subrange(0, i + 1)) >= colon_count(s.subrange(0, i)));
        lemma_colon_count_prefix(s, i + 1);
    }
}

} // verus!
