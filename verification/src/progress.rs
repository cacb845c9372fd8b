//! Decisions over a media-conversion tool's line-oriented progress stream.
//!
//! The stream is a sequence of `key=value` lines; a line whose key is
//! `progress` closes one report, whose payload is every `key=value` pair seen
//! since the previous report. The value `end` (after trimming) on the closing
//! line marks the conversion as finished. The surrounding process plumbing
//! lives with the caller, which feeds lines in and forwards reports to a
//! progress listener.

use vstd::prelude::*;
use vstd::string::StrSliceExecFns;

verus! {

/// Receives progress reports of a running conversion.
pub trait ProgressListener {
    fn on_progress(&mut self, done: bool, progress_info: Vec<(String, String)>);
}

/// A listener that discards every report.
pub struct NullProgressListener;

impl ProgressListener for NullProgressListener {
    fn on_progress(&mut self, _done: bool, _progress_info: Vec<(String, String)>) {
    }
}

/// The whitespace characters the stream's values are trimmed of: the Unicode
/// White_Space set.
pub open spec fn is_ws(c: char) -> bool {
    let u = c as u32;
    ||| u == 0x09
    ||| u == 0x0A
    ||| u == 0x0B
    ||| u == 0x0C
    ||| u == 0x0D
    ||| u == 0x20
    ||| u == 0x85
    ||| u == 0xA0
    ||| u == 0x1680
    ||| (0x2000 <= u && u <= 0x200A)
    ||| u == 0x2028
    ||| u == 0x2029
    ||| u == 0x202F
    ||| u == 0x205F
    ||| u == 0x3000
}

/// A character sequence without its leading whitespace.
pub open spec fn drop_leading_ws(s: Seq<char>) -> Seq<char>
    decreases s.len(),
{
    if s.len() == 0 {
        s
    } else if is_ws(s[0]) {
        drop_leading_ws(s.drop_first())
    } else {
        s
    }
}

/// A character sequence without its trailing whitespace.
pub open spec fn drop_trailing_ws(s: Seq<char>) -> Seq<char>
    decreases s.len(),
{
    if s.len() == 0 {
        s
    } else if is_ws(s.last()) {
        drop_trailing_ws(s.drop_last())
    } else {
        s
    }
}

/// A character sequence without leading and trailing whitespace.
pub open spec fn trimmed(s: Seq<char>) -> Seq<char> {
    drop_trailing_ws(drop_leading_ws(s))
}

/// The position of the first `=` at or after `i`, if any.
pub open spec fn first_eq_from(s: Seq<char>, i: int) -> Option<int>
    decreases s.len() - i,
{
    if i < 0 || i >= s.len() {
        None
    } else if s[i] == '=' {
        Some(i)
    } else {
        first_eq_from(s, i + 1)
    }
}

fn is_ws_char(c: char) -> (r: bool)
    ensures
        r == is_ws(c),
{
    let u = c as u32;
    u == 0x09 || u == 0x0A || u == 0x0B || u == 0x0C || u == 0x0D || u == 0x20 || u == 0x85 || u
        == 0xA0 || u == 0x1680 || (0x2000 <= u && u <= 0x200A) || u == 0x2028 || u == 0x2029 || u
        == 0x202F || u == 0x205F || u == 0x3000
}

/// Trims the stream's whitespace from both ends of a string.
pub fn trim_ws(s: &str) -> (r: &str)
    ensures
        r@ == trimmed(s@),
{
    let n = s.unicode_len();
    let mut a: usize = 0;
    proof {
        assert(s@.skip(0) =~= s@);
    }
    while a < n && is_ws_char(s.get_char(a))
        invariant
            n == s@.len(),
            a <= n,
            drop_leading_ws(s@) == drop_leading_ws(s@.skip(a as int)),
        decreases n - a,
    {
        proof {
            assert(s@.skip(a as int)[0] == s@[a as int]);
            assert(s@.skip(a as int).drop_first() =~= s@.skip(a as int + 1));
        }
        a = a + 1;
    }
    if a == n {
        proof {
            assert(s@.skip(a as int) =~= Seq::<char>::empty());
            assert(drop_leading_ws(s@) =~= Seq::<char>::empty());
            assert(trimmed(s@) =~= Seq::<char>::empty());
            assert(s@.subrange(a as int, a as int) =~= Seq::<char>::empty());
        }
        return s.substring_char(a, a);
    }
    proof {
        assert(s@.skip(a as int)[0] == s@[a as int]);
        assert(drop_leading_ws(s@) == s@.skip(a as int));
        assert(s@.subrange(a as int, n as int) =~= s@.skip(a as int));
    }
    let mut b: usize = n;
    while b > a && is_ws_char(s.get_char(b - 1))
        invariant
            n == s@.len(),
            a < n,
            a <= b <= n,
            !is_ws(s@[a as int]),
            drop_leading_ws(s@) == s@.skip(a as int),
            drop_trailing_ws(s@.skip(a as int)) == drop_trailing_ws(
                s@.subrange(a as int, b as int),
            ),
        decreases b,
    {
        proof {
            let cur = s@.subrange(a as int, b as int);
            assert(cur.last() == s@[b - 1]);
            assert(cur.drop_last() =~= s@.subrange(a as int, b as int - 1));
        }
        b = b - 1;
    }
    proof {
        let cur = s@.subrange(a as int, b as int);
        if b == a {
            assert(cur =~= Seq::<char>::empty());
        } else {
            assert(cur.last() == s@[b - 1]);
            assert(!is_ws(cur.last()));
        }
        assert(trimmed(s@) == s@.subrange(a as int, b as int));
    }
    s.substring_char(a, b)
}

/// Whether two strings hold the same characters.
pub fn str_eq(a: &str, b: &str) -> (r: bool)
    ensures
        r == (a@ == b@),
{
    let na = a.unicode_len();
    let nb = b.unicode_len();
    if na != nb {
        return false;
    }
    let mut i: usize = 0;
    while i < na
        invariant
            na == a@.len(),
            na == b@.len(),
            i <= na,
            forall|j: int| 0 <= j < i ==> a@[j] == b@[j],
        decreases na - i,
    {
        if a.get_char(i) != b.get_char(i) {
            return false;
        }
        i = i + 1;
    }
    proof {
        assert(a@ =~= b@);
    }
    true
}

/// The position of the first `=` in a line, if any.
fn find_eq(s: &str) -> (r: Option<usize>)
    ensures
        match r {
            Some(i) => i < s@.len() && first_eq_from(s@, 0) == Some(i as int),
            None => first_eq_from(s@, 0) is None,
        },
{
    let n = s.unicode_len();
    let mut i: usize = 0;
    while i < n
        invariant
            n == s@.len(),
            i <= n,
            first_eq_from(s@, 0) == first_eq_from(s@, i as int),
        decreases n - i,
    {
        if s.get_char(i) == '=' {
            return Some(i);
        }
        i = i + 1;
    }
    None
}

/// Accumulates `key=value` pairs between `progress` terminator lines.
pub struct ProgressParser {
    pub pending: Vec<(String, String)>,
}

impl ProgressParser {
    pub fn new() -> (r: ProgressParser)
        ensures
            r.pending@.len() == 0,
    {
        ProgressParser { pending: Vec::new() }
    }

    /// Feeds one line of the stream. A line without `=` changes nothing. A
    /// `progress` line closes the pending report and says whether the trimmed
    /// value reads `end`; any other `key=value` line appends the key and the
    /// trimmed value to the pending report.
    pub fn push_line(&mut self, line: &str) -> (r: Option<(bool, Vec<(String, String)>)>)
        ensures
            match first_eq_from(line@, 0) {
                None => r is None && final(self).pending@ == old(self).pending@,
                Some(e) => {
                    let k = line@.subrange(0, e);
                    let v = trimmed(line@.subrange(e + 1, line@.len() as int));
                    if k == "progress"@ {
                        match r {
                            Some((done, info)) => {
                                &&& done == (v == "end"@)
                                &&& info@ == old(self).pending@
                                &&& final(self).pending@.len() == 0
                            },
                            None => false,
                        }
                    } else {
                        &&& r is None
                        &&& final(self).pending@.len() == old(self).pending@.len() + 1
                        &&& (forall|i: int|
                            0 <= i < old(self).pending@.len() ==> final(self).pending@[i] == old(
                                self,
                            ).pending@[i])
                        &&& final(self).pending@.last().0@ == k
                        &&& final(self).pending@.last().1@ == v
                    }
                },
            },
    {
        let eq = match find_eq(line) {
            None => {
                return None;
            },
            Some(eq) => eq,
        };
        let n = line.unicode_len();
        let key = line.substring_char(0, eq);
        let value = trim_ws(line.substring_char(eq + 1, n));
        if str_eq(key, "progress") {
            let done = str_eq(value, "end");
            let report = self.pending.split_off(0);
            proof {
                assert(report@ =~= old(self).pending@);
                assert(self.pending@.len() == 0);
            }
            Some((done, report))
        } else {
            self.pending.push((key.to_owned(), value.to_owned()));
            None
        }
    }
}

} // verus!
