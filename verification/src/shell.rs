//! The pure parts of the kernel shell: splitting a command line into
//! arguments and rendering the attribute glyphs of a directory listing.
//! The read-eval loop itself talks to the console and the file system and
//! lives outside this crate.

use vstd::prelude::*;
use crate::fat32::metadata::Metadata;

verus! {

/// Largest number of arguments one command may have.
pub const MAX_ARGS: usize = 64;

/// Error type for `Command` parse failures.
#[derive(Debug)]
pub enum Error {
    /// The line holds no argument at all.
    Empty,
    /// The line holds more arguments than a command may have.
    TooManyArgs,
}

/// The space-separated words of the first `i` bytes of a line: a space
/// ends a word, and empty words do not count.
pub open spec fn words_prefix(s: Seq<u8>, i: int) -> Seq<Seq<u8>>
    decreases i,
{
    if i <= 0 {
        Seq::empty()
    } else {
        let prev = words_prefix(s, i - 1);
        if s[i - 1] == 32 {
            prev
        } else if i == 1 || s[i - 2] == 32 {
            prev.push(seq![s[i - 1]])
        } else {
            prev.update(prev.len() - 1, prev.last().push(s[i - 1]))
        }
    }
}

/// The space-separated words of a whole line.
pub open spec fn words(s: Seq<u8>) -> Seq<Seq<u8>> {
    words_prefix(s, s.len() as int)
}

/// A structure representing a single shell command: its arguments, the
/// first of which is the command's path.
pub struct Command {
    pub args: Vec<Vec<u8>>,
}

impl Command {
    /// The arguments as byte sequences.
    pub open spec fn args_view(self) -> Seq<Seq<u8>> {
        self.args@.map_values(|v: Vec<u8>| v@)
    }

    /// Parse a command from the bytes of a line: the arguments are the
    /// space-separated words, at most `MAX_ARGS` of them.
    ///
    /// A line with no words at all is `Empty`; one with too many words is
    /// `TooManyArgs`.
    pub fn parse(line: &Vec<u8>) -> (r: Result<Command, Error>)
        ensures
            match r {
                Ok(c) => {
                    &&& 1 <= words(line@).len() <= MAX_ARGS
                    &&& c.args_view() == words(line@)
                },
                Err(Error::Empty) => words(line@).len() == 0,
                Err(Error::TooManyArgs) => words(line@).len() > MAX_ARGS,
            },
    {
        let mut args: Vec<Vec<u8>> = Vec::new();
        let n = line.len();
        let mut i: usize = 0;
        while i < n
            invariant
                n == line@.len(),
                i <= n,
                args@.map_values(|v: Vec<u8>| v@) == words_prefix(line@, i as int),
                args@.len() <= MAX_ARGS,
            decreases n - i,
        {
            let b = line[i];
            let ghost before = args@.map_values(|v: Vec<u8>| v@);
            if b != 32 {
                let fresh = i == 0 || line[i - 1] == 32;
                if fresh {
                    if args.len() == MAX_ARGS {
                        proof {
                            assert(words_prefix(line@, i + 1).len() == MAX_ARGS + 1);
                            lemma_words_grow(line@, i + 1, n as int);
                        }
                        return Err(Error::TooManyArgs);
                    }
                    let mut w: Vec<u8> = Vec::new();
                    w.push(b);
                    args.push(w);
                    proof {
                        assert(args@.map_values(|v: Vec<u8>| v@) =~= before.push(seq![b]));
                    }
                } else {
                    proof {
                        lemma_words_nonempty(line@, i as int);
                        assert(args@.len() == words_prefix(line@, i as int).len());
                    }
                    let last = args.len() - 1;
                    let w = crate::util::vec_el_mut(&mut args, last);
                    w.push(b);
                    proof {
                        assert(args@.map_values(|v: Vec<u8>| v@) =~= before.update(
                            before.len() - 1, before.last().push(b)));
                    }
                }
            }
            i = i + 1;
        }
        if args.is_empty() {
            Err(Error::Empty)
        } else {
            Ok(Command { args })
        }
    }

    /// Returns this command's path: its first argument.
    pub fn path(&self) -> (r: &Vec<u8>)
        requires
            self.args@.len() >= 1,
        ensures
            r@ == self.args_view()[0],
    {
        &self.args[0]
    }
}

/// When the byte under the cursor continues a word, there already is a
/// word being built.
proof fn lemma_words_nonempty(s: Seq<u8>, i: int)
    requires
        0 < i <= s.len(),
        s[i - 1] != 32,
    ensures
        words_prefix(s, i).len() >= 1,
    decreases i,
{
    if i >= 2 && s[i - 2] != 32 {
        lemma_words_nonempty(s, i - 1);
    }
}

/// Extending the scanned prefix never loses words.
proof fn lemma_words_grow(s: Seq<u8>, i: int, j: int)
    requires
        0 <= i <= j <= s.len(),
    ensures
        words_prefix(s, j).len() >= words_prefix(s, i).len(),
    decreases j - i,
{
    if i < j {
        lemma_words_grow(s, i + 1, j);
    }
}

/// The attribute glyphs a directory listing renders for an entry, one
/// column a flag: `r` read-only, `h` hidden, `s` system, `v` volume id,
/// `d` directory (`f` for a file), `a` archive; `-` for a clear flag.
pub fn attribute_glyphs(m: &Metadata) -> (r: Vec<u8>)
    ensures
        r@.len() == 6,
        r@[0] == if (m.attributes.0 as int) % 2 == 1 {
            114u8
        } else {
            45u8
        },
        r@[1] == if (m.attributes.0 as int / 2) % 2 == 1 {
            104u8
        } else {
            45u8
        },
        r@[2] == if (m.attributes.0 as int / 4) % 2 == 1 {
            115u8
        } else {
            45u8
        },
        r@[3] == if (m.attributes.0 as int / 8) % 2 == 1 {
            118u8
        } else {
            45u8
        },
        r@[4] == if (m.attributes.0 as int / 16) % 2 == 1 {
            100u8
        } else {
            102u8
        },
        r@[5] == if (m.attributes.0 as int / 32) % 2 == 1 {
            97u8
        } else {
            45u8
        },
{
    let mut r: Vec<u8> = Vec::new();
    r.push(if m.read_only() {
        114
    } else {
        45
    });
    r.push(if m.hidden() {
        104
    } else {
        45
    });
    r.push(if m.is_system() {
        115
    } else {
        45
    });
    r.push(if m.is_volume_id() {
        118
    } else {
        45
    });
    r.push(if m.is_dir() {
        100
    } else {
        102
    });
    r.push(if m.is_archive() {
        97
    } else {
        45
    });
    r
}

} // verus!
