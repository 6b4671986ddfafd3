//! The path model: canonical absolute paths as sequences of segments.
//!
//! A canonical path is absolute and normalized: it has no `.` or `..`
//! segments, no empty segments and no trailing separator. The library
//! never touches the filesystem, so canonicalization itself (resolving
//! symbolic links) is the caller's task; this module only parses and
//! renders the textual form of an already-canonical path and gives the
//! rest of the library an exact mathematical view of it: the sequence
//! of its segments.

use vstd::prelude::*;
use vstd::string::StrSliceExecFns;
use vstd::string::StringExecFns;

verus! {

/// A valid path segment: non-empty, no separator, and neither of the
/// relative segments `.` and `..`.
pub open spec fn seg_ok(seg: Seq<char>) -> bool {
    &&& seg.len() > 0
    &&& !seg.contains('/')
    &&& seg != seq!['.']
    &&& seg != seq!['.', '.']
}

/// The chunks a string falls into when cut at every `/`, empty chunks
/// included: a string with `n` separators has `n + 1` chunks.
pub open spec fn chunks_of(s: Seq<char>) -> Seq<Seq<char>>
    decreases s.len(),
{
    if s.len() == 0 {
        seq![Seq::<char>::empty()]
    } else if s.last() == '/' {
        chunks_of(s.drop_last()).push(Seq::<char>::empty())
    } else {
        let prev = chunks_of(s.drop_last());
        prev.update(prev.len() - 1, prev.last().push(s.last()))
    }
}

/// The chunks with the empty ones removed, in order.
pub open spec fn drop_empty(chunks: Seq<Seq<char>>) -> Seq<Seq<char>>
    decreases chunks.len(),
{
    if chunks.len() == 0 {
        chunks
    } else if chunks.last().len() > 0 {
        drop_empty(chunks.drop_last()).push(chunks.last())
    } else {
        drop_empty(chunks.drop_last())
    }
}

/// The segment sequence a path string denotes: the non-empty chunks
/// between its separators. Consecutive and trailing separators thus
/// collapse away.
pub open spec fn segments_of(s: Seq<char>) -> Seq<Seq<char>> {
    drop_empty(chunks_of(s))
}

/// Whether a string is an acceptable textual form of a canonical path:
/// absolute (it starts with `/`) and every segment valid.
pub open spec fn parse_ok(s: Seq<char>) -> bool {
    &&& s.len() > 0
    &&& s[0] == '/'
    &&& forall|i: int| 0 <= i < segments_of(s).len() ==> seg_ok(#[trigger] segments_of(s)[i])
}

/// The textual form of a segment sequence: `/` for the root, otherwise
/// the segments in order, each preceded by one separator.
pub open spec fn render_spec(segs: Seq<Seq<char>>) -> Seq<char>
    decreases segs.len(),
{
    if segs.len() == 0 {
        seq!['/']
    } else if segs.len() == 1 {
        seq!['/'] + segs[0]
    } else {
        render_spec(segs.drop_last()) + seq!['/'] + segs.last()
    }
}

/// A canonical absolute path, held as its segments. The root itself has
/// no segments.
pub struct CanonicalPath {
    segments: Vec<String>,
}

impl View for CanonicalPath {
    type V = Seq<Seq<char>>;

    closed spec fn view(&self) -> Seq<Seq<char>> {
        self.segments.deep_view()
    }
}

impl CanonicalPath {
    /// Every segment of the path is valid. All constructors establish
    /// this.
    pub open spec fn wf(&self) -> bool {
        forall|i: int| 0 <= i < self@.len() ==> seg_ok(#[trigger] self@[i])
    }

    /// How many segments the path has; zero for the root.
    pub fn depth(&self) -> (n: usize)
        ensures
            n == self@.len(),
    {
        self.segments.len()
    }

    /// The segment at a given position, counted from the root.
    pub fn segment(&self, i: usize) -> (seg: &String)
        requires
            i < self@.len(),
        ensures
            seg@ == self@[i as int],
    {
        &self.segments[i]
    }

    /// Parses the textual form of a canonical absolute path. The string
    /// must start with `/`; empty chunks (consecutive or trailing
    /// separators) collapse away, and any `.` or `..` segment is
    /// rejected.
    pub fn parse(s: &str) -> (r: Option<CanonicalPath>)
        ensures
            r is Some <==> parse_ok(s@),
            r matches Some(p) ==> p@ == segments_of(s@) && p.wf(),
    {
        let n = s.unicode_len();
        if n == 0 || s.get_char(0) != '/' {
            return None;
        }
        let chunks = split_chunks(s);
        let m = chunks.len();
        let mut segs: Vec<String> = Vec::new();
        let mut k: usize = 0;
        proof {
            assert(chunks.deep_view().take(0) =~= Seq::<Seq<char>>::empty());
        }
        while k < m
            invariant
                m == chunks@.len(),
                0 <= k <= m,
                chunks.deep_view() == chunks_of(s@),
                segs.deep_view() == drop_empty(chunks.deep_view().take(k as int)),
                forall|j: int|
                    0 <= j < segs.deep_view().len() ==> seg_ok(#[trigger] segs.deep_view()[j]),
            decreases m - k,
        {
            proof {
                assert(chunks.deep_view()[k as int] == chunks@[k as int]@);
                lemma_drop_empty_take_step(chunks.deep_view(), k as int);
            }
            let ck = &chunks[k];
            if !ck.as_str().is_empty() {
                if !segment_ok(ck.as_str()) {
                    proof {
                        lemma_drop_empty_contains(chunks.deep_view(), k as int);
                        let bad = chunks.deep_view()[k as int];
                        let j = choose|j: int|
                            0 <= j < segments_of(s@).len() && segments_of(s@)[j] == bad;
                        assert(!seg_ok(segments_of(s@)[j]));
                    }
                    return None;
                }
                let ghost old_segs = segs.deep_view();
                segs.push(ck.clone());
                proof {
                    assert(segs.deep_view() =~= old_segs.push(chunks.deep_view()[k as int]));
                }
            }
            k += 1;
        }
        proof {
            assert(chunks.deep_view().take(m as int) =~= chunks.deep_view());
        }
        Some(CanonicalPath { segments: segs })
    }

    /// Builds a path from already-split segments; rejects any segment
    /// that is empty, contains a separator, or is `.` or `..`.
    pub fn from_segments(segments: Vec<String>) -> (r: Option<CanonicalPath>)
        ensures
            r is Some <==> (forall|i: int|
                0 <= i < segments.deep_view().len() ==> seg_ok(#[trigger] segments.deep_view()[i])),
            r matches Some(p) ==> p@ == segments.deep_view() && p.wf(),
    {
        let n = segments.len();
        let mut i: usize = 0;
        while i < n
            invariant
                0 <= i <= n == segments.len(),
                forall|j: int| 0 <= j < i ==> seg_ok(#[trigger] segments.deep_view()[j]),
            decreases n - i,
        {
            proof {
                assert(segments.deep_view()[i as int] == segments@[i as int]@);
            }
            if !segment_ok(segments[i].as_str()) {
                return None;
            }
            i += 1;
        }
        Some(CanonicalPath { segments })
    }

    /// The textual form of the path, as it appears in the confirmation
    /// prompt.
    pub fn render(&self) -> (r: String)
        ensures
            r@ == render_spec(self@),
    {
        let n = self.segments.len();
        if n == 0 {
            let r = "/".to_owned();
            proof {
                reveal_strlit("/");
                assert(r@ =~= seq!['/']);
            }
            return r;
        }
        let mut out = String::new();
        let mut i: usize = 0;
        while i < n
            invariant
                n == self@.len(),
                0 <= i <= n,
                i > 0 ==> out@ == render_spec(self@.take(i as int)),
                i == 0 ==> out@ == Seq::<char>::empty(),
            decreases n - i,
        {
            proof {
                assert(self.segments.deep_view()[i as int] == self.segments@[i as int]@);
            }
            out.append("/");
            out.append(self.segments[i].as_str());
            proof {
                reveal_strlit("/");
                assert("/"@ =~= seq!['/']);
                let upto = self@.take(i as int + 1);
                assert(upto.drop_last() =~= self@.take(i as int));
                assert(upto.last() == self@[i as int]);
                if i == 0 {
                    assert(out@ =~= seq!['/'] + self@[0]);
                } else {
                    assert(out@ =~= render_spec(self@.take(i as int)) + seq!['/'] + self@[
                        i as int
                    ]);
                }
            }
            i += 1;
        }
        proof {
            assert(self@.take(n as int) =~= self@);
        }
        out
    }
}

/// Appending one more chunk extends `drop_empty` by that chunk exactly
/// when the chunk is non-empty.
proof fn lemma_drop_empty_take_step(chunks: Seq<Seq<char>>, k: int)
    requires
        0 <= k < chunks.len(),
    ensures
        drop_empty(chunks.take(k + 1)) == if chunks[k].len() > 0 {
            drop_empty(chunks.take(k)).push(chunks[k])
        } else {
            drop_empty(chunks.take(k))
        },
{
    assert(chunks.take(k + 1).drop_last() =~= chunks.take(k));
    assert(chunks.take(k + 1).last() == chunks[k]);
}

/// A non-empty chunk survives `drop_empty`.
proof fn lemma_drop_empty_contains(chunks: Seq<Seq<char>>, k: int)
    requires
        0 <= k < chunks.len(),
        chunks[k].len() > 0,
    ensures
        drop_empty(chunks).contains(chunks[k]),
    decreases chunks.len(),
{
    if k == chunks.len() - 1 {
        assert(drop_empty(chunks).last() == chunks[k]);
    } else {
        lemma_drop_empty_contains(chunks.drop_last(), k);
        let inner = drop_empty(chunks.drop_last());
        let j = choose|j: int| 0 <= j < inner.len() && inner[j] == chunks.drop_last()[k];
        assert(chunks.drop_last()[k] == chunks[k]);
        assert(drop_empty(chunks)[j] == chunks[k]);
    }
}

/// Cuts a string at every `/`, keeping empty chunks, so that the result
/// is exactly `chunks_of` of the string.
fn split_chunks(s: &str) -> (chunks: Vec<String>)
    ensures
        chunks.deep_view() == chunks_of(s@),
{
    let n = s.unicode_len();
    let mut chunks: Vec<String> = Vec::new();
    let mut start: usize = 0;
    let mut i: usize = 0;
    proof {
        assert(s@.take(0) =~= Seq::<char>::empty());
        assert(s@.subrange(0, 0) =~= Seq::<char>::empty());
        assert(chunks.deep_view().push(s@.subrange(0, 0)) =~= seq![Seq::<char>::empty()]);
    }
    while i < n
        invariant
            n == s@.len(),
            0 <= start <= i <= n,
            chunks.deep_view().push(s@.subrange(start as int, i as int)) == chunks_of(
                s@.take(i as int),
            ),
        decreases n - i,
    {
        let ghost prefix = s@.take(i as int);
        let ghost next = s@.take(i as int + 1);
        proof {
            assert(next.drop_last() =~= prefix);
            assert(next.last() == s@[i as int]);
        }
        let c = s.get_char(i);
        if c == '/' {
            let chunk = s.substring_char(start, i).to_owned();
            let ghost old_chunks = chunks.deep_view();
            chunks.push(chunk);
            proof {
                assert(chunks.deep_view() =~= old_chunks.push(s@.subrange(start as int, i as int)));
                assert(chunks_of(next) == chunks_of(prefix).push(Seq::<char>::empty()));
                assert(s@.subrange(i as int + 1, i as int + 1) =~= Seq::<char>::empty());
                assert(chunks.deep_view().push(s@.subrange(i as int + 1, i as int + 1)) =~= chunks_of(
                    next,
                ));
            }
            start = i + 1;
        } else {
            proof {
                let prev = chunks_of(prefix);
                assert(prev == chunks.deep_view().push(s@.subrange(start as int, i as int)));
                assert(prev.last() == s@.subrange(start as int, i as int));
                assert(chunks_of(next) == prev.update(
                    prev.len() - 1,
                    prev.last().push(s@[i as int]),
                ));
                assert(s@.subrange(start as int, i as int).push(s@[i as int]) =~= s@.subrange(
                    start as int,
                    i as int + 1,
                ));
                assert(prev.update(prev.len() - 1, s@.subrange(start as int, i as int + 1)) =~= chunks.deep_view().push(
                    s@.subrange(start as int, i as int + 1),
                ));
            }
        }
        i += 1;
    }
    let last = s.substring_char(start, n).to_owned();
    let ghost old_chunks = chunks.deep_view();
    chunks.push(last);
    proof {
        assert(s@.take(n as int) =~= s@);
        assert(chunks.deep_view() =~= old_chunks.push(s@.subrange(start as int, n as int)));
    }
    chunks
}

/// A string always has at least one chunk.
proof fn lemma_chunks_nonempty(s: Seq<char>)
    ensures
        chunks_of(s).len() >= 1,
    decreases s.len(),
{
    if s.len() > 0 {
        lemma_chunks_nonempty(s.drop_last());
    }
}

/// Appending separator-free text only grows the last chunk.
proof fn lemma_chunks_append_no_slash(a: Seq<char>, w: Seq<char>)
    requires
        forall|i: int| 0 <= i < w.len() ==> w[i] != '/',
    ensures
        chunks_of(a + w) == chunks_of(a).update(
            chunks_of(a).len() - 1,
            chunks_of(a).last() + w,
        ),
    decreases w.len(),
{
    lemma_chunks_nonempty(a);
    if w.len() == 0 {
        assert(a + w =~= a);
        assert(chunks_of(a).last() + w =~= chunks_of(a).last());
        assert(chunks_of(a).update(chunks_of(a).len() - 1, chunks_of(a).last()) =~= chunks_of(a));
    } else {
        lemma_chunks_append_no_slash(a, w.drop_last());
        let part = a + w.drop_last();
        let whole = a + w;
        assert(whole.drop_last() =~= part);
        assert(whole.last() == w.last());
        let prev = chunks_of(part);
        assert(chunks_of(whole) == prev.update(prev.len() - 1, prev.last().push(w.last())));
        assert(prev.last() == chunks_of(a).last() + w.drop_last());
        assert((chunks_of(a).last() + w.drop_last()).push(w.last()) =~= chunks_of(a).last() + w);
        assert(prev.update(prev.len() - 1, chunks_of(a).last() + w) =~= chunks_of(a).update(
            chunks_of(a).len() - 1,
            chunks_of(a).last() + w,
        ));
    }
}

/// Rendering and parsing are mutual inverses: the textual form of any
/// well-formed segment sequence parses, and parses back to exactly that
/// sequence. In particular two distinct canonical paths never render to
/// the same string.
pub proof fn lemma_render_parse_round_trip(segs: Seq<Seq<char>>)
    requires
        forall|i: int| 0 <= i < segs.len() ==> seg_ok(#[trigger] segs[i]),
    ensures
        parse_ok(render_spec(segs)),
        segments_of(render_spec(segs)) == segs,
    decreases segs.len(),
{
    let e = Seq::<char>::empty();
    let slash = seq!['/'];
    assert(slash.len() == 1 && slash.last() == '/');
    assert(slash.drop_last() =~= e);
    assert(chunks_of(e) == seq![e]);
    assert(chunks_of(slash) == chunks_of(e).push(e));
    assert(chunks_of(slash) =~= seq![e, e]);
    assert(seq![e, e].drop_last() =~= seq![e]);
    assert(seq![e].drop_last() =~= Seq::<Seq<char>>::empty());
    assert(drop_empty(seq![e]) == drop_empty(Seq::<Seq<char>>::empty()));
    assert(drop_empty(seq![e, e]) == drop_empty(seq![e]));
    if segs.len() == 0 {
        let r = render_spec(segs);
        assert(r == slash);
        assert(segments_of(r) =~= segs);
    } else if segs.len() == 1 {
        let w = segs[0];
        let r = render_spec(segs);
        assert(r == slash + w);
        assert(forall|i: int| 0 <= i < w.len() ==> w[i] != '/') by {
            assert(!w.contains('/'));
        }
        lemma_chunks_append_no_slash(slash, w);
        assert(chunks_of(slash).last() + w =~= w);
        assert(chunks_of(r) == chunks_of(slash).update(chunks_of(slash).len() - 1, w));
        assert(chunks_of(r) =~= seq![e, w]);
        assert(seq![e, w].drop_last() =~= seq![e]);
        assert(drop_empty(seq![e, w]) == drop_empty(seq![e]).push(w));
        assert(segments_of(r) =~= segs);
        assert(r[0] == '/');
    } else {
        lemma_render_parse_round_trip(segs.drop_last());
        let pre = render_spec(segs.drop_last());
        let w = segs.last();
        let r = render_spec(segs);
        assert(r == pre + seq!['/'] + w);
        assert(pre + seq!['/'] =~= pre.push('/'));
        assert(pre.push('/').drop_last() =~= pre);
        assert(chunks_of(pre.push('/')) == chunks_of(pre).push(Seq::<char>::empty()));
        assert(forall|i: int| 0 <= i < w.len() ==> w[i] != '/') by {
            assert(!w.contains('/'));
        }
        lemma_chunks_append_no_slash(pre.push('/'), w);
        let grown = chunks_of(pre.push('/'));
        assert(Seq::<char>::empty() + w =~= w);
        assert(pre.push('/') + w =~= r);
        assert(chunks_of(r) == grown.update(grown.len() - 1, w));
        lemma_chunks_nonempty(pre);
        assert(grown.update(grown.len() - 1, w) =~= chunks_of(pre).push(w));
        assert(chunks_of(pre).push(w).drop_last() =~= chunks_of(pre));
        assert(segments_of(r) == segments_of(pre).push(w));
        assert(segments_of(pre).push(w) =~= segs);
        assert(r[0] == pre[0]);
        assert(r[0] == '/');
    }
}

/// A trailing separator changes nothing: `/a/b` and `/a/b/` denote the
/// same segment sequence, and the one parses exactly when the other
/// does.
pub proof fn lemma_trailing_separator(s: Seq<char>)
    requires
        s.len() > 0,
    ensures
        segments_of(s.push('/')) == segments_of(s),
        parse_ok(s.push('/')) <==> parse_ok(s),
{
    let t = s.push('/');
    assert(t.drop_last() =~= s);
    assert(t.last() == '/');
    assert(chunks_of(t) == chunks_of(s).push(Seq::<char>::empty()));
    assert(chunks_of(t).drop_last() =~= chunks_of(s));
    assert(t[0] == s[0]);
}

/// Checks a single segment for validity.
pub fn segment_ok(seg: &str) -> (r: bool)
    ensures
        r == seg_ok(seg@),
{
    let n = seg.unicode_len();
    if n == 0 {
        return false;
    }
    let mut i: usize = 0;
    while i < n
        invariant
            0 <= i <= n == seg@.len(),
            forall|j: int| 0 <= j < i ==> seg@[j] != '/',
        decreases n - i,
    {
        if seg.get_char(i) == '/' {
            return false;
        }
        i += 1;
    }
    if n == 1 && seg.get_char(0) == '.' {
        proof {
            assert(seg@ =~= seq!['.']);
        }
        return false;
    }
    if n == 2 && seg.get_char(0) == '.' && seg.get_char(1) == '.' {
        proof {
            assert(seg@ =~= seq!['.', '.']);
        }
        return false;
    }
    proof {
        if seg@ == seq!['.'] {
            assert(seg@.len() == 1 && seg@[0] == '.');
        }
        if seg@ == seq!['.', '.'] {
            assert(seg@.len() == 2 && seg@[0] == '.' && seg@[1] == '.');
        }
    }
    true
}

} // verus!
