//! The process' deployment environment: the typed identity the config
//! loader hands the rest of the system, loaded once at process start
//! and immutable thereafter, and the parsing of env-file text into
//! key/value pairs.  Reading the process environment and the file
//! itself happens at the edge; only plain text comes in here.

use vstd::prelude::*;
use vstd::slice::{slice_to_vec, slice_subrange};
use crate::bytes::{bytes_eq, spec_find, find_byte, lemma_find_is_first};
use crate::propagate::{spec_split, lemma_split_at_first, lemma_split_no_sep, entries_view};

verus! {

/// The recognized deployment environments.
#[derive(Clone, Copy, PartialEq, Eq, Structural, Debug)]
pub enum Env {
    Local,
    Dev,
    Sit,
    Alpha,
    Beta,
    Uat,
    Staging,
    Prod,
}

impl Env {
    /// The lowercase name of the environment.
    pub open spec fn spec_name(self) -> Seq<u8> {
        match self {
            Env::Local => seq![0x6cu8, 0x6fu8, 0x63u8, 0x61u8, 0x6cu8],
            Env::Dev => seq![0x64u8, 0x65u8, 0x76u8],
            Env::Sit => seq![0x73u8, 0x69u8, 0x74u8],
            Env::Alpha => seq![0x61u8, 0x6cu8, 0x70u8, 0x68u8, 0x61u8],
            Env::Beta => seq![0x62u8, 0x65u8, 0x74u8, 0x61u8],
            Env::Uat => seq![0x75u8, 0x61u8, 0x74u8],
            Env::Staging => seq![0x73u8, 0x74u8, 0x61u8, 0x67u8, 0x69u8, 0x6eu8, 0x67u8],
            Env::Prod => seq![0x70u8, 0x72u8, 0x6fu8, 0x64u8],
        }
    }

    /// The lowercase name, as bytes.
    pub fn name(&self) -> (r: Vec<u8>)
        ensures
            r@ == self.spec_name(),
    {
        let r: Vec<u8> = match self {
            Env::Local => vec![0x6c, 0x6f, 0x63, 0x61, 0x6c],
            Env::Dev => vec![0x64, 0x65, 0x76],
            Env::Sit => vec![0x73, 0x69, 0x74],
            Env::Alpha => vec![0x61, 0x6c, 0x70, 0x68, 0x61],
            Env::Beta => vec![0x62, 0x65, 0x74, 0x61],
            Env::Uat => vec![0x75, 0x61, 0x74],
            Env::Staging => vec![0x73, 0x74, 0x61, 0x67, 0x69, 0x6e, 0x67],
            Env::Prod => vec![0x70, 0x72, 0x6f, 0x64],
        };
        proof {
            assert(r@ =~= self.spec_name());
        }
        r
    }
}

/// The loaded environment state: constructed once from the environment
/// name at process start, then only read.
pub struct EnvState {
    pub env: Env,
}

impl EnvState {
    /// Recognizes an environment name; an unknown name is rejected, and
    /// the caller refuses to start.
    pub fn from_name(name: &[u8]) -> (r: Option<EnvState>)
        ensures
            match r {
                Some(st) => st.env.spec_name() == name@,
                None => forall|e: Env| name@ != #[trigger] e.spec_name(),
            },
    {
        if bytes_eq(name, Env::Local.name().as_slice()) {
            Some(EnvState { env: Env::Local })
        } else if bytes_eq(name, Env::Dev.name().as_slice()) {
            Some(EnvState { env: Env::Dev })
        } else if bytes_eq(name, Env::Sit.name().as_slice()) {
            Some(EnvState { env: Env::Sit })
        } else if bytes_eq(name, Env::Alpha.name().as_slice()) {
            Some(EnvState { env: Env::Alpha })
        } else if bytes_eq(name, Env::Beta.name().as_slice()) {
            Some(EnvState { env: Env::Beta })
        } else if bytes_eq(name, Env::Uat.name().as_slice()) {
            Some(EnvState { env: Env::Uat })
        } else if bytes_eq(name, Env::Staging.name().as_slice()) {
            Some(EnvState { env: Env::Staging })
        } else if bytes_eq(name, Env::Prod.name().as_slice()) {
            Some(EnvState { env: Env::Prod })
        } else {
            None
        }
    }

    /// The loaded environment.
    pub fn value(&self) -> (r: Env)
        ensures
            r == self.env,
    {
        self.env
    }
}

/// An ASCII whitespace byte, the subset `trim` removes from env lines.
pub open spec fn is_space(b: u8) -> bool {
    b == 0x20 || b == 0x09 || b == 0x0a || b == 0x0d || b == 0x0b || b == 0x0c
}

/// The string without its leading whitespace.
pub open spec fn spec_trim_start(s: Seq<u8>) -> Seq<u8>
    decreases s.len(),
{
    if s.len() > 0 && is_space(s[0]) {
        spec_trim_start(s.drop_first())
    } else {
        s
    }
}

/// The string without its trailing whitespace.
pub open spec fn spec_trim_end(s: Seq<u8>) -> Seq<u8>
    decreases s.len(),
{
    if s.len() > 0 && is_space(s.last()) {
        spec_trim_end(s.drop_last())
    } else {
        s
    }
}

/// The string without leading and trailing whitespace.
pub open spec fn spec_trim(s: Seq<u8>) -> Seq<u8> {
    spec_trim_end(spec_trim_start(s))
}

proof fn lemma_trim_start_at(s: Seq<u8>, i: int)
    requires
        0 <= i <= s.len(),
        forall|j: int| 0 <= j < i ==> is_space(#[trigger] s[j]),
        i < s.len() ==> !is_space(s[i]),
    ensures
        spec_trim_start(s) == s.skip(i),
    decreases i,
{
    if i == 0 {
        assert(s.skip(0) =~= s);
    } else {
        let rest = s.drop_first();
        lemma_trim_start_at(rest, i - 1);
        assert(rest.skip(i - 1) =~= s.skip(i));
    }
}

proof fn lemma_trim_end_at(s: Seq<u8>, j: int)
    requires
        0 <= j <= s.len(),
        forall|k: int| j <= k < s.len() ==> is_space(#[trigger] s[k]),
        j > 0 ==> !is_space(s[j - 1]),
    ensures
        spec_trim_end(s) == s.take(j),
    decreases s.len(),
{
    if j == s.len() {
        if s.len() > 0 && is_space(s.last()) {
            assert(false);
        }
        assert(s.take(j) =~= s);
    } else {
        assert(is_space(s.last()));
        let shorter = s.drop_last();
        lemma_trim_end_at(shorter, j);
        assert(shorter.take(j) =~= s.take(j));
    }
}

/// Removes leading and trailing ASCII whitespace.
pub fn trim_bytes(s: &[u8]) -> (r: Vec<u8>)
    ensures
        r@ == spec_trim(s@),
{
    let n = s.len();
    let mut lo: usize = 0;
    while lo < n && (s[lo] == 0x20 || s[lo] == 0x09 || s[lo] == 0x0a || s[lo] == 0x0d || s[lo]
        == 0x0b || s[lo] == 0x0c)
        invariant
            lo <= n,
            n == s@.len(),
            forall|j: int| 0 <= j < lo ==> is_space(#[trigger] s@[j]),
        decreases n - lo,
    {
        lo = lo + 1;
    }
    proof {
        lemma_trim_start_at(s@, lo as int);
    }
    let mut hi: usize = n;
    while hi > lo && (s[hi - 1] == 0x20 || s[hi - 1] == 0x09 || s[hi - 1] == 0x0a || s[hi - 1]
        == 0x0d || s[hi - 1] == 0x0b || s[hi - 1] == 0x0c)
        invariant
            lo <= hi <= n,
            n == s@.len(),
            forall|k: int| hi <= k < n ==> is_space(#[trigger] s@[k]),
        decreases hi,
    {
        hi = hi - 1;
    }
    proof {
        let tail = s@.skip(lo as int);
        lemma_trim_end_at(tail, hi - lo);
        assert(tail.take(hi - lo) =~= s@.subrange(lo as int, hi as int));
    }
    slice_to_vec(slice_subrange(s, lo, hi))
}

/// A line without its trailing carriage return, so that both `\n` and
/// `\r\n` line endings are accepted.
pub open spec fn spec_strip_cr(s: Seq<u8>) -> Seq<u8> {
    if s.len() > 0 && s.last() == 0x0d {
        s.drop_last()
    } else {
        s
    }
}

/// What one env-file line denotes: nothing for blank lines, comment
/// lines (starting with `#`) and lines without `=`; otherwise the
/// trimmed key before the first `=` and the trimmed value after it.
pub open spec fn spec_parse_env_line(line: Seq<u8>) -> Option<(Seq<u8>, Seq<u8>)> {
    let l = spec_strip_cr(line);
    if spec_trim(l).len() == 0 || (l.len() > 0 && l[0] == 0x23) {
        None
    } else {
        match spec_find(l, 0x3d) {
            None => None,
            Some(i) => if 0 <= i < l.len() {
                Some((spec_trim(l.take(i)), spec_trim(l.skip(i + 1))))
            } else {
                None
            },
        }
    }
}

/// The key/value pairs the well-formed lines denote, in order.
pub open spec fn spec_parse_env_pieces(ps: Seq<Seq<u8>>) -> Seq<(Seq<u8>, Seq<u8>)>
    decreases ps.len(),
{
    if ps.len() == 0 {
        Seq::empty()
    } else {
        (match spec_parse_env_line(ps[0]) {
            Some(e) => seq![e],
            None => Seq::empty(),
        }) + spec_parse_env_pieces(ps.drop_first())
    }
}

/// What a whole env file denotes: its lines split on newlines, each
/// parsed, the malformed ones skipped.
pub open spec fn spec_parse_env(content: Seq<u8>) -> Seq<(Seq<u8>, Seq<u8>)> {
    spec_parse_env_pieces(spec_split(content, 0x0a))
}

/// Parses one env-file line.
fn parse_env_line(line: &[u8]) -> (r: Option<(Vec<u8>, Vec<u8>)>)
    ensures
        match r {
            Some(e) => spec_parse_env_line(line@) == Some((e.0@, e.1@)),
            None => spec_parse_env_line(line@) is None,
        },
{
    let n = line.len();
    let l: &[u8] = if n > 0 && line[n - 1] == 0x0d {
        slice_subrange(line, 0, n - 1)
    } else {
        line
    };
    proof {
        assert(l@ =~= spec_strip_cr(line@));
    }
    let whole = trim_bytes(l);
    if whole.len() == 0 {
        return None;
    }
    if l.len() > 0 && l[0] == 0x23 {
        return None;
    }
    let ln = l.len();
    match find_byte(l, 0x3d) {
        None => None,
        Some(i) => {
            proof {
                lemma_find_is_first(l@, 0x3d);
            }
            let key = trim_bytes(slice_subrange(l, 0, i));
            let value = trim_bytes(slice_subrange(l, i + 1, ln));
            proof {
                assert(l@.subrange(0, i as int) =~= l@.take(i as int));
                assert(l@.subrange(i + 1, ln as int) =~= l@.skip(i + 1));
            }
            Some((key, value))
        },
    }
}

/// Parses env-file text into key/value pairs: one pair per well-formed
/// line, blank lines, comments and lines without `=` skipped, keys and
/// values trimmed of surrounding whitespace.
pub fn parse_env_lines(content: &[u8]) -> (r: Vec<(Vec<u8>, Vec<u8>)>)
    ensures
        entries_view(r@) == spec_parse_env(content@),
{
    let mut out: Vec<(Vec<u8>, Vec<u8>)> = Vec::new();
    let mut rest: &[u8] = content;
    proof {
        assert(entries_view(out@) =~= Seq::<(Seq<u8>, Seq<u8>)>::empty());
        assert(spec_parse_env_pieces(spec_split(content@, 0x0a)) == entries_view(out@)
            + spec_parse_env_pieces(spec_split(rest@, 0x0a)));
    }
    loop
        invariant_except_break
            spec_parse_env_pieces(spec_split(content@, 0x0a)) == entries_view(out@)
                + spec_parse_env_pieces(spec_split(rest@, 0x0a)),
        ensures
            entries_view(out@) == spec_parse_env_pieces(spec_split(content@, 0x0a)),
        decreases rest@.len(),
    {
        let ghost pre_out = out@;
        let ghost pre_rest = rest@;
        match find_byte(rest, 0x0a) {
            Some(i) => {
                proof {
                    lemma_split_at_first(pre_rest, 0x0a);
                }
                let piece = slice_subrange(rest, 0, i);
                match parse_env_line(piece) {
                    Some(e) => {
                        proof {
                            assert(entries_view(pre_out.push(e)) =~= entries_view(pre_out).push(
                                (e.0@, e.1@),
                            ));
                        }
                        out.push(e);
                    },
                    None => {
                    },
                }
                let rest_len = rest.len();
                let next = slice_subrange(rest, i + 1, rest_len);
                proof {
                    let pieces = spec_split(pre_rest, 0x0a);
                    assert(pieces == seq![pre_rest.take(i as int)] + spec_split(
                        pre_rest.skip(i + 1),
                        0x0a,
                    ));
                    assert(pieces[0] == pre_rest.take(i as int));
                    assert(pieces.drop_first() =~= spec_split(pre_rest.skip(i + 1), 0x0a));
                    assert(piece@ == pre_rest.take(i as int));
                    assert(next@ == pre_rest.skip(i + 1));
                    match spec_parse_env_line(piece@) {
                        Some(e) => {
                            assert(spec_parse_env_pieces(pieces) == seq![e]
                                + spec_parse_env_pieces(spec_split(next@, 0x0a)));
                            assert(entries_view(pre_out) + (seq![e] + spec_parse_env_pieces(
                                spec_split(next@, 0x0a),
                            )) =~= (entries_view(pre_out) + seq![e]) + spec_parse_env_pieces(
                                spec_split(next@, 0x0a),
                            ));
                            assert(entries_view(out@) =~= entries_view(pre_out) + seq![e]);
                        },
                        None => {
                            assert(spec_parse_env_pieces(pieces) =~= Seq::<(
                                Seq<u8>,
                                Seq<u8>,
                            )>::empty() + spec_parse_env_pieces(spec_split(next@, 0x0a)));
                            assert(Seq::<(Seq<u8>, Seq<u8>)>::empty() + spec_parse_env_pieces(
                                spec_split(next@, 0x0a),
                            ) =~= spec_parse_env_pieces(spec_split(next@, 0x0a)));
                        },
                    }
                }
                rest = next;
            },
            None => {
                proof {
                    lemma_split_no_sep(pre_rest, 0x0a);
                }
                match parse_env_line(rest) {
                    Some(e) => {
                        proof {
                            assert(entries_view(pre_out.push(e)) =~= entries_view(pre_out).push(
                                (e.0@, e.1@),
                            ));
                        }
                        out.push(e);
                    },
                    None => {
                    },
                }
                proof {
                    let pieces = spec_split(pre_rest, 0x0a);
                    assert(pieces == seq![pre_rest]);
                    assert(pieces[0] == pre_rest);
                    assert(pieces.drop_first() =~= Seq::<Seq<u8>>::empty());
                    assert(spec_parse_env_pieces(Seq::<Seq<u8>>::empty()) =~= Seq::<(
                        Seq<u8>,
                        Seq<u8>,
                    )>::empty());
                    match spec_parse_env_line(pre_rest) {
                        Some(e) => {
                            assert(spec_parse_env_pieces(pieces) =~= seq![e]);
                            assert(entries_view(out@) =~= entries_view(pre_out) + seq![e]);
                        },
                        None => {
                            assert(spec_parse_env_pieces(pieces) =~= Seq::<(
                                Seq<u8>,
                                Seq<u8>,
                            )>::empty());
                            assert(entries_view(out@) + Seq::<(Seq<u8>, Seq<u8>)>::empty()
                                =~= entries_view(out@));
                        },
                    }
                }
                break ;
            },
        }
    }
    out
}

} // verus!
