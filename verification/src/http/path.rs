//! The path of an HTTP request: the base path and the query string,
//! parsed from percent-encoded request text.

use crate::http::url::urldecode_from;
use crate::http::Error;
use crate::text::{chars_range, chars_to_string, str_chars};
use vstd::prelude::*;
use vstd::string::StrSliceExecFns;

verus! {

/// The first position at or after `pos` holding the given character, or
/// the end of the text.
pub open spec fn find_char(s: Seq<char>, c: char, pos: int) -> int
    decreases s.len() - pos,
{
    if pos < 0 || pos >= s.len() {
        s.len() as int
    } else if s[pos] == c {
        pos
    } else {
        find_char(s, c, pos + 1)
    }
}

/// A character scan neither moves backward nor runs past the end.
proof fn lemma_find_char_bounds(s: Seq<char>, c: char, pos: int)
    requires
        0 <= pos <= s.len(),
    ensures
        pos <= find_char(s, c, pos) <= s.len(),
        find_char(s, c, pos) < s.len() ==> s[find_char(s, c, pos)] == c,
    decreases s.len() - pos,
{
    if pos < s.len() && s[pos] != c {
        lemma_find_char_bounds(s, c, pos + 1);
    }
}

/// The key-to-value entries written by a query string: segments are
/// separated by `&`, and a segment with exactly one `=` contributes the
/// pair it writes; every other segment is skipped.
pub open spec fn query_entries(qs: Seq<char>, pos: int) -> Seq<(Seq<char>, Seq<char>)>
    decreases qs.len() - pos,
{
    if pos < 0 || pos > qs.len() {
        Seq::empty()
    } else {
        let a = {
            let raw = find_char(qs, '&', pos);
            if pos <= raw <= qs.len() {
                raw
            } else {
                qs.len() as int
            }
        };
        let segment = qs.subrange(pos, a);
        let eq1 = find_char(segment, '=', 0);
        let entry: Seq<(Seq<char>, Seq<char>)> = if eq1 < segment.len() && find_char(
            segment,
            '=',
            eq1 + 1,
        ) == segment.len() {
            seq![(segment.subrange(0, eq1), segment.subrange(eq1 + 1, segment.len() as int))]
        } else {
            Seq::empty()
        };
        if a >= qs.len() {
            entry
        } else {
            entry + query_entries(qs, a + 1)
        }
    }
}

/// The base path and query entries written by a request path: the text is
/// percent-decoded, then split at `?`; more than one `?` is malformed.
pub open spec fn path_parse_spec(s: Seq<char>) -> Option<(Seq<char>, Seq<(Seq<char>, Seq<char>)>)> {
    let d = urldecode_from(s, 0);
    let q1 = find_char(d, '?', 0);
    if q1 >= d.len() {
        Some((d, Seq::empty()))
    } else if find_char(d, '?', q1 + 1) < d.len() {
        None
    } else {
        Some((d.subrange(0, q1), query_entries(d.subrange(q1 + 1, d.len() as int), 0)))
    }
}

/// The value under a key, where the entry written latest wins.
pub open spec fn query_lookup(
    entries: Seq<(Seq<char>, Seq<char>)>,
    name: Seq<char>,
) -> Option<Seq<char>>
    decreases entries.len(),
{
    if entries.len() == 0 {
        None
    } else if entries[entries.len() - 1].0 == name {
        Some(entries[entries.len() - 1].1)
    } else {
        query_lookup(entries.drop_last(), name)
    }
}

/// The views of query entries, elementwise.
pub open spec fn view_qentries(s: Seq<(String, String)>) -> Seq<(Seq<char>, Seq<char>)> {
    Seq::new(s.len(), |i: int| (s[i].0@, s[i].1@))
}

/// The query entries of a request path, in the order they were written.
#[derive(Debug, PartialEq)]
pub struct QueryMap {
    pub entries: Vec<(String, String)>,
}

impl QueryMap {
    /// The value under a key, if any; the entry written latest wins.
    pub fn get(&self, name: &str) -> (r: Option<&String>)
        ensures
            match r {
                Some(v) => query_lookup(view_qentries(self.entries@), name@) == Some(v@),
                None => query_lookup(view_qentries(self.entries@), name@) is None,
            },
    {
        let ghost entries = view_qentries(self.entries@);
        let mut i: usize = self.entries.len();
        proof {
            assert(entries.take(i as int) =~= entries);
        }
        while i > 0
            invariant
                entries == view_qentries(self.entries@),
                entries.len() == self.entries@.len(),
                i <= self.entries@.len(),
                query_lookup(entries, name@) == query_lookup(entries.take(i as int), name@),
            decreases i,
        {
            let ghost prefix = entries.take(i as int);
            proof {
                assert(prefix[prefix.len() - 1] == entries[i - 1]);
            }
            let entry = &self.entries[i - 1];
            if crate::language::value::str_eq(entry.0.as_str(), name) {
                return Some(&entry.1);
            }
            proof {
                assert(prefix.drop_last() =~= entries.take(i as int - 1));
            }
            i = i - 1;
        }
        proof {
            assert(entries.take(0) =~= Seq::<(Seq<char>, Seq<char>)>::empty());
        }
        None
    }
}

/// The path of a request: its base and its query entries.
#[derive(Debug, PartialEq)]
pub struct Path {
    pub query: QueryMap,
    pub base: String,
}

impl Default for Path {
    /// The root path with no query.
    fn default() -> (r: Path)
        ensures
            r.base@ == "/"@,
            r.query.entries@.len() == 0,
    {
        Path {
            query: QueryMap { entries: Vec::new() },
            base: <String as vstd::string::StringExecFns>::from_str("/"),
        }
    }
}

impl Path {
    /// Whether this path is a prefix of the other path's base.
    pub fn matches(&self, path: &Path) -> (r: bool)
        ensures
            r == (self.base@.len() <= path.base@.len() && path.base@.subrange(
                0,
                self.base@.len() as int,
            ) == self.base@),
    {
        let ours = str_chars(self.base.as_str());
        let theirs = str_chars(path.base.as_str());
        if ours.len() > theirs.len() {
            return false;
        }
        let mut i: usize = 0;
        while i < ours.len()
            invariant
                ours@ == self.base@,
                theirs@ == path.base@,
                ours@.len() <= theirs@.len(),
                i <= ours@.len(),
                forall|j: int| 0 <= j < i ==> ours@[j] == theirs@[j],
            decreases ours@.len() - i,
        {
            if ours[i] != theirs[i] {
                proof {
                    let sub = path.base@.subrange(0, self.base@.len() as int);
                    assert(sub[i as int] != self.base@[i as int]);
                }
                return false;
            }
            i = i + 1;
        }
        proof {
            assert(path.base@.subrange(0, self.base@.len() as int) =~= self.base@);
        }
        true
    }

    /// Whether the base path ends with a slash.
    pub fn is_root(&self) -> (r: bool)
        ensures
            r == (self.base@.len() > 0 && self.base@[self.base@.len() - 1] == '/'),
    {
        let chars = str_chars(self.base.as_str());
        if chars.len() == 0 {
            false
        } else {
            chars[chars.len() - 1] == '/'
        }
    }

    /// The last segment of the base path: what follows the final slash.
    /// A path that ends with a slash has no resource.
    pub fn resource(&self) -> (r: Option<&str>)
        ensures
            match r {
                Some(v) => !(self.base@.len() > 0 && self.base@[self.base@.len() - 1]
                    == '/') && v@ == self.base@.subrange(
                    last_slash_end(self.base@),
                    self.base@.len() as int,
                ),
                None => self.base@.len() > 0 && self.base@[self.base@.len() - 1] == '/',
            },
    {
        if self.is_root() {
            return None;
        }
        let chars = str_chars(self.base.as_str());
        let n = chars.len();
        let mut cut: usize = 0;
        let mut i: usize = 0;
        while i < n
            invariant
                chars@ == self.base@,
                n == chars@.len(),
                i <= n,
                cut as int == last_slash_end_upto(self.base@, i as int),
                cut <= i,
            decreases n - i,
        {
            if chars[i] == '/' {
                cut = i + 1;
            }
            i = i + 1;
        }
        Some(self.base.as_str().substring_char(cut, n))
    }

    /// The query entries.
    pub fn query(&self) -> (r: &QueryMap)
        ensures
            r == &self.query,
    {
        &self.query
    }

    /// The base path.
    pub fn path(&self) -> (r: &str)
        ensures
            r@ == self.base@,
    {
        self.base.as_str()
    }

    /// Parses a request path: percent-decodes it, splits off the query
    /// string at `?`, and collects the `key=value` pairs separated by
    /// `&`. More than one `?` is malformed.
    pub fn parse(path: &str) -> (r: Result<Path, Error>)
        ensures
            match r {
                Ok(p) => path_parse_spec(path@) == Some(
                    (p.base@, view_qentries(p.query.entries@)),
                ),
                Err(e) => path_parse_spec(path@) is None && e->0@
                    == "path has malformed query"@,
            },
    {
        let decoded = crate::http::url::urldecode(path);
        let chars = str_chars(decoded.as_str());
        let n = chars.len();
        let q1 = find_char_exec(&chars, '?', 0);
        if q1 >= n {
            return Ok(
                Path { query: QueryMap { entries: Vec::new() }, base: decoded },
            );
        }
        let q2 = find_char_exec(&chars, '?', q1 + 1);
        if q2 < n {
            return Err(Error::MalformedRequest("path has malformed query"));
        }
        let base = chars_to_string(&chars_range(&chars, 0, q1));
        let qs = chars_range(&chars, q1 + 1, n);
        let entries = parse_query(&qs);
        Ok(Path { query: QueryMap { entries }, base })
    }
}

/// One past the final slash of the text, or the start when it has none.
pub open spec fn last_slash_end(s: Seq<char>) -> int {
    last_slash_end_upto(s, s.len() as int)
}

/// One past the final slash among the first `n` characters.
pub open spec fn last_slash_end_upto(s: Seq<char>, n: int) -> int
    decreases n,
{
    if n <= 0 || n > s.len() {
        0
    } else if s[n - 1] == '/' {
        n
    } else {
        last_slash_end_upto(s, n - 1)
    }
}

/// Finds the first occurrence of a character at or after `pos`.
fn find_char_exec(chars: &Vec<char>, c: char, pos: usize) -> (r: usize)
    requires
        pos <= chars@.len(),
    ensures
        r as int == find_char(chars@, c, pos as int),
        pos <= r <= chars@.len(),
        r < chars@.len() ==> chars@[r as int] == c,
{
    let n = chars.len();
    let mut i: usize = pos;
    while i < n && chars[i] != c
        invariant
            n == chars@.len(),
            pos <= i <= n,
            find_char(chars@, c, pos as int) == find_char(chars@, c, i as int),
        decreases n - i,
    {
        i = i + 1;
    }
    i
}

/// Collects the `key=value` entries of a query string.
fn parse_query(qs: &Vec<char>) -> (r: Vec<(String, String)>)
    ensures
        view_qentries(r@) == query_entries(qs@, 0),
{
    let n = qs.len();
    let mut out: Vec<(String, String)> = Vec::new();
    let mut pos: usize = 0;
    let mut done = false;
    proof {
        assert(view_qentries(out@) =~= Seq::<(Seq<char>, Seq<char>)>::empty());
    }
    while !done
        invariant
            n == qs@.len(),
            pos <= n,
            !done ==> query_entries(qs@, 0) == view_qentries(out@) + query_entries(
                qs@,
                pos as int,
            ),
            done ==> query_entries(qs@, 0) == view_qentries(out@),
        decreases n - pos + 1, (if done {
            0int
        } else {
            1int
        }),
    {
        let a = find_char_exec(qs, '&', pos);
        let segment = chars_range(qs, pos, a);
        let seglen = segment.len();
        let eq1 = find_char_exec(&segment, '=', 0);
        let ghost entriesbefore = view_qentries(out@);
        if eq1 < seglen {
            let eq2 = find_char_exec(&segment, '=', eq1 + 1);
            if eq2 >= seglen {
                let key = chars_to_string(&chars_range(&segment, 0, eq1));
                let value = chars_to_string(&chars_range(&segment, eq1 + 1, seglen));
                out.push((key, value));
                proof {
                    assert(view_qentries(out@) =~= entriesbefore.push(
                        (
                            segment@.subrange(0, eq1 as int),
                            segment@.subrange(eq1 as int + 1, segment@.len() as int),
                        ),
                    ));
                }
            }
        }
        proof {
            let seg = qs@.subrange(pos as int, a as int);
            assert(seg == segment@);
            let entry: Seq<(Seq<char>, Seq<char>)> = if find_char(seg, '=', 0) < seg.len()
                && find_char(seg, '=', find_char(seg, '=', 0) + 1) == seg.len() {
                seq![
                    (
                        seg.subrange(0, find_char(seg, '=', 0)),
                        seg.subrange(find_char(seg, '=', 0) + 1, seg.len() as int),
                    ),
                ]
            } else {
                Seq::empty()
            };
            assert(view_qentries(out@) =~= entriesbefore + entry);
            if a as int >= qs@.len() {
                assert(query_entries(qs@, pos as int) == entry);
            } else {
                assert(query_entries(qs@, pos as int) == entry + query_entries(
                    qs@,
                    a as int + 1,
                ));
            }
        }
        if a >= n {
            done = true;
            proof {
                assert(view_qentries(out@) + Seq::<(Seq<char>, Seq<char>)>::empty()
                    =~= view_qentries(out@));
                assert(query_entries(qs@, 0) =~= view_qentries(out@));
            }
        } else {
            proof {
                assert(view_qentries(out@) + query_entries(qs@, a as int + 1) =~= (
                entriesbefore + (query_entries(qs@, pos as int))));
            }
            pos = a + 1;
        }
    }
    out
}

} // verus!
