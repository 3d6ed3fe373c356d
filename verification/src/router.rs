//! Paths and the patterns that select them.

use vstd::prelude::*;
use vstd::relations::strict_total_ordering;
use vstd::slice::*;
use vstd::std_specs::cmp::PartialEqSpecImpl;
use vstd::utf8::{encode_utf8, is_ascii_chars_encode_utf8};
use crate::order::{byte_order, bytes_before, comes_before, lemma_lexicographic, lexicographic};
use crate::text::{find_byte, lemma_position, lemma_position_is_first, position, same_bytes};

verus! {

/// The byte separating path segments.
pub const SLASH: u8 = 0x2f;

/// The byte that stands for an arbitrary continuation at the end of a pattern.
pub const ASTERISK: u8 = 0x2a;

/// A path without its leading slashes.
pub open spec fn without_slashes(path: Seq<u8>) -> Seq<u8>
    decreases path.len(),
{
    if path.len() > 0 && path[0] == SLASH {
        without_slashes(path.skip(1))
    } else {
        path
    }
}

/// The first segment of a path that has one.
pub open spec fn first_segment(path: Seq<u8>) -> Seq<u8> {
    let start = without_slashes(path);
    start.take(position(start, SLASH) as int)
}

/// What follows the first segment of a path.
pub open spec fn after_first(path: Seq<u8>) -> Seq<u8> {
    let start = without_slashes(path);
    start.skip(position(start, SLASH) as int)
}

/// Skipping slashes stops at a byte that is not a slash.
pub proof fn lemma_without_slashes(path: Seq<u8>)
    ensures
        without_slashes(path).len() <= path.len(),
        without_slashes(path).len() > 0 ==> without_slashes(path)[0] != SLASH,
    decreases path.len(),
{
    if path.len() > 0 && path[0] == SLASH {
        lemma_without_slashes(path.skip(1));
    }
}

/// A path gets shorter by its first segment, and what is left is empty or starts with a slash.
pub proof fn lemma_after_first(path: Seq<u8>)
    requires
        without_slashes(path).len() > 0,
    ensures
        after_first(path).len() < path.len(),
        after_first(path).len() > 0 ==> after_first(path)[0] == SLASH,
{
    lemma_without_slashes(path);
    lemma_position(without_slashes(path), SLASH);
}

/// The segments of a path: what stands between its slashes, without empty segments. Leading,
/// trailing and repeated slashes therefore make no difference.
pub open spec fn segments(path: Seq<u8>) -> Seq<Seq<u8>>
    decreases path.len(),
{
    if without_slashes(path).len() == 0 {
        Seq::empty()
    } else {
        proof {
            lemma_after_first(path);
        }
        seq![first_segment(path)] + segments(after_first(path))
    }
}

/// What follows the first `count` segments of a path.
pub open spec fn after_segments(path: Seq<u8>, count: nat) -> Seq<u8>
    decreases count,
{
    if count == 0 {
        path
    } else {
        after_first(after_segments(path, (count - 1) as nat))
    }
}

/// The tail of a path after its first `count` segments, a single slash if nothing is left.
pub open spec fn tail_after(path: Seq<u8>, count: nat) -> Seq<u8> {
    let rest = after_segments(path, count);
    if rest.len() == 0 {
        seq![SLASH]
    } else {
        rest
    }
}

/// The offset of the first byte at or after the given one that is not a slash.
fn skip_slashes(path: &[u8], from: usize) -> (r: usize)
    requires
        from <= path.len(),
    ensures
        from <= r <= path.len(),
        path@.skip(r as int) == without_slashes(path@.skip(from as int)),
{
    let mut i: usize = from;
    while i < path.len() && path[i] == SLASH
        invariant
            from <= i <= path.len(),
            without_slashes(path@.skip(i as int)) == without_slashes(path@.skip(from as int)),
        decreases path.len() - i,
    {
        assert(path@.skip(i as int).skip(1) =~= path@.skip(i + 1));
        i += 1;
    }
    i
}

/// A path, split into its segments.
#[derive(Debug)]
pub struct Path {
    segments: Vec<Vec<u8>>,
}

impl View for Path {
    type V = Seq<Seq<u8>>;

    closed spec fn view(&self) -> Seq<Seq<u8>> {
        Seq::new(self.segments@.len(), |i: int| self.segments@[i]@)
    }
}

impl Clone for Path {
    fn clone(&self) -> (r: Path)
        ensures
            r@ == self@,
    {
        let mut list: Vec<Vec<u8>> = Vec::new();
        let mut i: usize = 0;
        while i < self.segments.len()
            invariant
                i <= self.segments.len(),
                list.len() == i,
                forall|j: int| 0 <= j < i ==> (#[trigger] list@[j])@ == self.segments@[j]@,
            decreases self.segments.len() - i,
        {
            list.push(slice_to_vec(self.segments[i].as_slice()));
            i += 1;
        }
        let r = Path { segments: list };
        assert(r@ =~= self@);
        r
    }
}

impl PartialEq for Path {
    fn eq(&self, other: &Path) -> (r: bool)
        ensures
            r <==> self@ == other@,
    {
        self.is_same(other)
    }
}

impl PartialEqSpecImpl for Path {
    open spec fn obeys_eq_spec() -> bool {
        true
    }

    open spec fn eq_spec(&self, other: &Path) -> bool {
        self@ == other@
    }
}

impl Eq for Path {

}

impl Path {
    /// Splits a path into its segments.
    pub fn new(path: &[u8]) -> (r: Path)
        ensures
            r@ == segments(path@),
    {
        let mut list: Vec<Vec<u8>> = Vec::new();
        let mut pos: usize = 0;
        let ghost mut parsed: Seq<Seq<u8>> = Seq::empty();
        assert(path@.skip(0) =~= path@);
        loop
            invariant
                pos <= path.len(),
                parsed.len() == list.len(),
                forall|i: int| 0 <= i < list.len() ==> (#[trigger] list@[i])@ == parsed[i],
                segments(path@) == parsed + segments(path@.skip(pos as int)),
            decreases path.len() - pos,
        {
            let start = skip_slashes(path, pos);
            if start == path.len() {
                let r = Path { segments: list };
                assert(r@ =~= segments(path@));
                return r;
            }
            let end = find_byte(path, start, SLASH);
            proof {
                let rest = path@.skip(pos as int);
                lemma_after_first(rest);
                lemma_position(without_slashes(rest), SLASH);
                assert(path@.subrange(start as int, end as int) =~= first_segment(rest));
                assert(path@.skip(end as int) =~= after_first(rest));
                assert(parsed + segments(rest) =~= parsed.push(first_segment(rest)) + segments(
                    after_first(rest),
                ));
                parsed = parsed.push(first_segment(rest));
            }
            list.push(slice_to_vec(slice_subrange(path, start, end)));
            pos = end;
        }
    }

    /// Determines whether the segments of another path start with the segments of this one.
    pub fn is_prefix_of(&self, other: &Path) -> (r: bool)
        ensures
            r == self@.is_prefix_of(other@),
    {
        if self.segments.len() > other.segments.len() {
            return false;
        }
        let mut i: usize = 0;
        while i < self.segments.len()
            invariant
                i <= self.segments.len() <= other.segments.len(),
                forall|j: int| 0 <= j < i ==> self@[j] == other@[j],
            decreases self.segments.len() - i,
        {
            if !same_bytes(self.segments[i].as_slice(), other.segments[i].as_slice()) {
                assert(self@[i as int] != other@[i as int]);
                return false;
            }
            i += 1;
        }
        assert(self@ =~= other@.subrange(0, self@.len() as int));
        true
    }

    /// Determines whether two paths have the same segments.
    pub fn is_same(&self, other: &Path) -> (r: bool)
        ensures
            r == (self@ == other@),
    {
        let r = self.segments.len() == other.segments.len() && self.is_prefix_of(other);
        proof {
            if r {
                assert(self@ =~= other@);
            } else if self@ == other@ {
                assert(self@ =~= other@.subrange(0, self@.len() as int));
            }
        }
        r
    }

    /// If the given path starts with the segments of this one, returns the tail that remains
    /// without them. The tail is taken from the path unchanged, with all its slashes.
    pub fn remove_prefix_from(&self, path: &[u8]) -> (r: Option<Vec<u8>>)
        ensures
            r is Some <==> self@.is_prefix_of(segments(path@)),
            r matches Some(tail) ==> tail@ == tail_after(path@, self@.len()),
            r matches Some(tail) ==> segments(path@) == self@ + segments(tail@),
            r matches Some(tail) ==> {
                ||| exists|head: Seq<u8>|
                    path@ == #[trigger] (head + tail@) && segments(head) == self@ && tail@.len() > 0
                        && (head.len() > 0 ==> head.last() != 0x2f && tail@[0] == 0x2f)
                ||| tail@ == seq![0x2fu8] && segments(path@) == self@ && (path@.len() > 0
                    ==> path@.last() != 0x2f)
            },
    {
        let mut pos: usize = 0;
        let mut i: usize = 0;
        assert(path@.skip(0) =~= path@);
        assert(self@.take(0) + segments(path@) =~= segments(path@));
        while i < self.segments.len()
            invariant
                i <= self.segments.len(),
                pos <= path.len(),
                path@.skip(pos as int) == after_segments(path@, i as nat),
                segments(path@) == self@.take(i as int) + segments(path@.skip(pos as int)),
            decreases self.segments.len() - i,
        {
            let start = skip_slashes(path, pos);
            let ghost rest = path@.skip(pos as int);
            if start == path.len() {
                assert(segments(path@).len() == i);
                return None;
            }
            let end = find_byte(path, start, SLASH);
            proof {
                lemma_after_first(rest);
                lemma_position(without_slashes(rest), SLASH);
                assert(path@.subrange(start as int, end as int) =~= first_segment(rest));
                assert(path@.skip(end as int) =~= after_first(rest));
                assert(segments(path@)[i as int] == first_segment(rest));
            }
            if !same_bytes(self.segments[i].as_slice(), slice_subrange(path, start, end)) {
                assert(self@[i as int] != segments(path@)[i as int]);
                return None;
            }
            assert(self@.take(i + 1) =~= self@.take(i as int).push(first_segment(rest)));
            assert(self@.take(i as int) + segments(rest) =~= self@.take(i + 1) + segments(
                after_first(rest),
            ));
            pos = end;
            i += 1;
        }
        assert(self@.take(i as int) =~= self@);
        assert(self@ =~= segments(path@).subrange(0, self@.len() as int));
        proof {
            law_prefix_and_tail(self@, path@);
            law_tail(self@, path@);
        }
        if pos == path.len() {
            let mut tail: Vec<u8> = Vec::new();
            tail.push(SLASH);
            assert(tail@ =~= seq![SLASH]);
            Some(tail)
        } else {
            assert(path@.subrange(pos as int, path@.len() as int) =~= path@.skip(pos as int));
            Some(slice_to_vec(slice_subrange(path, pos, path.len())))
        }
    }

    /// Determines whether this path comes before another one in lexicographic order.
    pub fn is_before(&self, other: &Path) -> (r: bool)
        ensures
            r == comes_before(self@, other@, lexicographic(byte_order())),
    {
        let ghost less = lexicographic(byte_order());
        let mut i: usize = 0;
        assert(self@.skip(0) =~= self@ && other@.skip(0) =~= other@);
        while i < self.segments.len() && i < other.segments.len() && same_bytes(
            self.segments[i].as_slice(),
            other.segments[i].as_slice(),
        )
            invariant
                i <= self.segments.len(),
                i <= other.segments.len(),
                comes_before(self@, other@, less) == comes_before(
                    self@.skip(i as int),
                    other@.skip(i as int),
                    less,
                ),
            decreases self.segments.len() - i,
        {
            assert(self@.skip(i as int).skip(1) =~= self@.skip(i + 1));
            assert(other@.skip(i as int).skip(1) =~= other@.skip(i + 1));
            i += 1;
        }
        i < other.segments.len() && (i == self.segments.len() || bytes_before(
            self.segments[i].as_slice(),
            other.segments[i].as_slice(),
        ))
    }

    /// The number of segments.
    pub fn depth(&self) -> (r: usize)
        ensures
            r == self@.len(),
    {
        self.segments.len()
    }
}

/// The prefix of a path and what follows it make up all segments of the path.
proof fn lemma_after_segments(path: Seq<u8>, count: nat)
    requires
        count <= segments(path).len(),
    ensures
        segments(path) == segments(path).take(count as int) + segments(
            after_segments(path, count),
        ),
        count > 0 && after_segments(path, count).len() > 0 ==> after_segments(path, count)[0]
            == SLASH,
    decreases count,
{
    if count == 0 {
        assert(segments(path).take(0) + segments(path) =~= segments(path));
    } else {
        let before = (count - 1) as nat;
        lemma_after_segments(path, before);
        let rest = after_segments(path, before);
        lemma_after_first(rest);
        assert(segments(path)[before as int] == first_segment(rest));
        assert(segments(path).take(count as int) =~= segments(path).take(before as int).push(
            first_segment(rest),
        ));
        assert(segments(path) =~= segments(path).take(count as int) + segments(
            after_first(rest),
        ));
    }
}

/// Removing a prefix from a path loses nothing but the prefix: the segments of the prefix and the
/// segments of the tail are together the segments of the path. The tail of an absolute path is
/// an absolute path.
pub proof fn law_prefix_and_tail(prefix: Seq<Seq<u8>>, path: Seq<u8>)
    requires
        prefix.is_prefix_of(segments(path)),
    ensures
        segments(path) == prefix + segments(tail_after(path, prefix.len())),
        path.len() > 0 && path[0] == SLASH ==> tail_after(path, prefix.len())[0] == SLASH,
{
    lemma_after_segments(path, prefix.len());
    assert(segments(path).take(prefix.len() as int) =~= prefix);
    reveal_with_fuel(without_slashes, 2);
    assert(without_slashes(seq![SLASH].skip(1)).len() == 0);
    assert(segments(seq![SLASH]) =~= Seq::empty());
    assert(segments(Seq::<u8>::empty()) =~= Seq::empty());
    let rest = after_segments(path, prefix.len());
    if rest.len() == 0 {
        assert(rest =~= Seq::<u8>::empty());
    }
}

/// What a pattern selects.
#[verifier::ext_equal]
pub struct PatternModel {
    pub path: Seq<Seq<u8>>,
    pub exact: bool,
}

impl PatternModel {
    /// Whether a pattern selects the path with the given segments: this path alone, or all paths
    /// that start with its own one.
    pub open spec fn selects(self, path: Seq<Seq<u8>>) -> bool {
        if self.exact {
            self.path == path
        } else {
            self.path.is_prefix_of(path)
        }
    }

    /// Whether this pattern is more specific than another: it has the longer path, or the same
    /// length of path and is exact where the other is not.
    pub open spec fn beats(self, other: PatternModel) -> bool {
        self.path.len() > other.path.len() || (self.path.len() == other.path.len() && self.exact
            && !other.exact)
    }

    /// Whether this pattern is listed before another: it is more specific, or equally specific and
    /// has the lesser path in lexicographic order.
    pub open spec fn precedes(self, other: PatternModel) -> bool {
        ||| self.beats(other)
        ||| !other.beats(self) && comes_before(
            self.path,
            other.path,
            lexicographic(byte_order()),
        )
    }
}

/// Any two different patterns can be ordered.
pub proof fn law_patterns_are_ordered()
    ensures
        strict_total_ordering(|a: PatternModel, b: PatternModel| a.precedes(b)),
{
    lemma_lexicographic(byte_order());
    lemma_lexicographic(lexicographic(byte_order()));
    let paths = lexicographic(lexicographic(byte_order()));
    let order = |a: PatternModel, b: PatternModel| a.precedes(b);
    assert forall|a: PatternModel| #[trigger] order(a, a) == false by {
        assert(!paths(a.path, a.path));
    }
    assert forall|a: PatternModel, b: PatternModel| #[trigger]
        order(a, b) && #[trigger] order(b, a) implies a == b by {
        assert(!(paths(a.path, b.path) && paths(b.path, a.path)) || a.path == b.path);
        assert(!paths(a.path, a.path));
    }
    assert forall|a: PatternModel, b: PatternModel| a != b implies #[trigger] order(a, b)
        || #[trigger] order(b, a) by {
        assert(a.path == b.path || paths(a.path, b.path) || paths(b.path, a.path));
    }
    assert forall|a: PatternModel, b: PatternModel, c: PatternModel| #[trigger]
        order(a, b) && #[trigger] order(b, c) implies order(a, c) by {
        assert(paths(a.path, b.path) && paths(b.path, c.path) ==> paths(a.path, c.path));
    }
}

/// Whether a pattern ends with a slash and an asterisk.
pub open spec fn is_wildcard(pattern: Seq<u8>) -> bool {
    pattern.len() >= 2 && pattern[pattern.len() - 2] == SLASH && pattern.last() == ASTERISK
}

/// The meaning of a pattern: `/path/*` selects `/path` and everything below it, `/path` selects
/// this path only.
pub open spec fn pattern_model(pattern: Seq<u8>) -> PatternModel {
    if is_wildcard(pattern) {
        PatternModel { path: segments(pattern.take(pattern.len() - 2)), exact: false }
    } else {
        PatternModel { path: segments(pattern), exact: true }
    }
}

/// A pattern that selects a single path or all paths with a prefix.
#[derive(Debug)]
pub struct PathMatch {
    pub path: Path,
    pub exact: bool,
}

impl View for PathMatch {
    type V = PatternModel;

    open spec fn view(&self) -> PatternModel {
        PatternModel { path: self.path@, exact: self.exact }
    }
}

impl Clone for PathMatch {
    fn clone(&self) -> (r: PathMatch)
        ensures
            r@ == self@,
    {
        PathMatch { path: self.path.clone(), exact: self.exact }
    }
}

impl PartialEq for PathMatch {
    fn eq(&self, other: &PathMatch) -> (r: bool)
        ensures
            r <==> self.path@ == other.path@ && self.exact == other.exact,
    {
        self.exact == other.exact && self.path.is_same(&other.path)
    }
}

impl PartialEqSpecImpl for PathMatch {
    open spec fn obeys_eq_spec() -> bool {
        true
    }

    open spec fn eq_spec(&self, other: &PathMatch) -> bool {
        self@ == other@
    }
}

impl Eq for PathMatch {

}

impl PathMatch {
    /// Reads a pattern.
    pub fn new(pattern: &str) -> (r: PathMatch)
        ensures
            r@ == pattern_model(encode_utf8(pattern@)),
            r.exact <==> !encode_utf8("/*"@).is_suffix_of(encode_utf8(pattern@)),
            r.exact ==> r.path@ == segments(encode_utf8(pattern@)),
            forall|path: Seq<u8>|
                encode_utf8(pattern@) == #[trigger] (path + encode_utf8("/*"@)) ==> !r.exact
                    && r.path@ == segments(path),
    {
        proof {
            law_patterns(encode_utf8(pattern@));
        }
        let bytes = pattern.as_bytes();
        let len: usize = bytes.len();
        if len >= 2 && bytes[len - 2] == SLASH && bytes[len - 1] == ASTERISK {
            assert(bytes@.subrange(0, len - 2) =~= bytes@.take(len - 2));
            PathMatch { path: Path::new(slice_subrange(bytes, 0, len - 2)), exact: false }
        } else {
            PathMatch { path: Path::new(bytes), exact: true }
        }
    }

    /// Determines whether this pattern selects the given path.
    pub fn matches(&self, path: &Path) -> (r: bool)
        ensures
            r == self@.selects(path@),
            r <==> if self.exact {
                self.path@ == path@
            } else {
                self.path@.len() <= path@.len() && self.path@ == path@.take(self.path@.len() as int)
            },
    {
        if self.exact {
            self.path.is_same(path)
        } else {
            self.path.is_prefix_of(path)
        }
    }

    /// Determines whether this pattern is more specific than another one.
    pub fn beats(&self, other: &PathMatch) -> (r: bool)
        ensures
            r == self@.beats(other@),
            r <==> self.path@.len() > other.path@.len() || self.path@.len() == other.path@.len()
                && self.exact && !other.exact,
    {
        let depth: usize = self.path.depth();
        let other_depth: usize = other.path.depth();
        depth > other_depth || (depth == other_depth && self.exact && !other.exact)
    }

    /// Determines whether this pattern is listed before another one.
    pub fn precedes(&self, other: &PathMatch) -> (r: bool)
        ensures
            r == self@.precedes(other@),
    {
        self.beats(other) || (!other.beats(self) && self.path.is_before(&other.path))
    }
}

/// Two patterns that both select one path and of which neither is more specific are the same.
pub proof fn law_most_specific_pattern_is_unique(
    a: PatternModel,
    b: PatternModel,
    path: Seq<Seq<u8>>,
)
    requires
        a.selects(path),
        b.selects(path),
        !a.beats(b),
        !b.beats(a),
    ensures
        a == b,
{
    assert(a.path =~= b.path);
}

/// Leading slashes make no difference for the segments of a path.
proof fn lemma_leading_slash(path: Seq<u8>)
    requires
        path.len() > 0,
        path[0] == SLASH,
    ensures
        segments(path) == segments(path.skip(1)),
{
}

/// A slash separates the segments before it from the segments behind it, wherever it stands. Text
/// without slashes is a single segment, and there are no empty ones.
pub proof fn law_segments(a: Seq<u8>, b: Seq<u8>)
    ensures
        segments(a + seq![0x2fu8] + b) == segments(a) + segments(b),
        a.len() > 0 && !a.contains(0x2f) ==> segments(a) == seq![a],
        a.len() == 0 ==> segments(a) == Seq::<Seq<u8>>::empty(),
    decreases a.len(),
{
    let path = a + seq![0x2fu8] + b;
    if a.len() == 0 {
        assert(path.skip(1) =~= b);
        lemma_leading_slash(path);
        assert(segments(a) + segments(b) =~= segments(b));
    } else if a[0] == SLASH {
        assert(path.skip(1) =~= a.skip(1) + seq![0x2fu8] + b);
        lemma_leading_slash(path);
        lemma_leading_slash(a);
        law_segments(a.skip(1), b);
        assert(a.contains(0x2f));
    } else {
        assert(without_slashes(a) == a && without_slashes(path) == path);
        lemma_position(a, SLASH);
        let end = position(a, SLASH);
        assert forall|i: int| 0 <= i < end implies #[trigger] path[i] != SLASH by {
            assert(a[i] != SLASH);
        }
        lemma_position_is_first(path, SLASH, end);
        assert(first_segment(path) =~= first_segment(a));
        assert(after_first(path) =~= after_first(a) + seq![0x2fu8] + b);
        lemma_after_first(a);
        law_segments(after_first(a), b);
        assert(segments(path) =~= segments(a) + segments(b));
        if !a.contains(0x2f) {
            assert(end == a.len());
            assert(first_segment(a) =~= a);
            assert(segments(a) =~= seq![a]);
        }
    }
}

/// What follows the slashes of a path is the end of this path.
proof fn lemma_without_slashes_is_suffix(path: Seq<u8>)
    ensures
        without_slashes(path).len() <= path.len(),
        without_slashes(path) == path.skip(path.len() - without_slashes(path).len()),
    decreases path.len(),
{
    if path.len() > 0 && path[0] == SLASH {
        lemma_without_slashes_is_suffix(path.skip(1));
        let rest = without_slashes(path);
        assert(rest =~= path.skip(path.len() - rest.len()));
    } else {
        assert(path.skip(0) =~= path);
    }
}

/// What follows some segments of a path is the end of this path, and a segment stands directly in
/// front of it.
proof fn lemma_after_segments_is_suffix(path: Seq<u8>, count: nat)
    requires
        count <= segments(path).len(),
    ensures
        after_segments(path, count).len() <= path.len(),
        after_segments(path, count) == path.skip(path.len() - after_segments(path, count).len()),
        count > 0 ==> after_segments(path, count).len() < path.len() && path[path.len()
            - after_segments(path, count).len() - 1] != SLASH,
    decreases count,
{
    if count == 0 {
        assert(path.skip(0) =~= path);
    } else {
        let before = (count - 1) as nat;
        lemma_after_segments_is_suffix(path, before);
        lemma_after_segments(path, before);
        let rest = after_segments(path, before);
        assert(segments(rest).len() > 0);
        let start = without_slashes(rest);
        lemma_without_slashes(rest);
        lemma_without_slashes_is_suffix(rest);
        lemma_position(start, SLASH);
        let end = position(start, SLASH) as int;
        assert(end > 0);
        assert(start[end - 1] != SLASH);
        let result = after_segments(path, count);
        assert(result == start.skip(end));
        assert(start =~= path.skip(path.len() - start.len()));
        assert(result =~= path.skip(path.len() - result.len()));
        assert(path[path.len() - result.len() - 1] == start[end - 1]);
    }
}

/// The tail of a path is the end of this path behind the segments of the prefix, taken as it is. A
/// slash between both belongs to the tail. Only if nothing follows the prefix, the tail is a slash
/// that is not part of the path.
pub proof fn law_tail(prefix: Seq<Seq<u8>>, path: Seq<u8>)
    requires
        prefix.is_prefix_of(segments(path)),
    ensures
        ({
            let tail = tail_after(path, prefix.len());
            ||| exists|head: Seq<u8>|
                path == #[trigger] (head + tail) && segments(head) == prefix && tail.len() > 0 && (
                head.len() > 0 ==> head.last() != 0x2f && tail[0] == 0x2f)
            ||| tail == seq![0x2fu8] && segments(path) == prefix && (path.len() > 0 ==> path.last()
                != 0x2f)
        }),
{
    let count = prefix.len();
    let rest = after_segments(path, count);
    lemma_after_segments(path, count);
    lemma_after_segments_is_suffix(path, count);
    assert(segments(path).take(count as int) =~= prefix);
    let head = path.take(path.len() - rest.len());
    assert(path =~= head + rest);
    assert(segments(Seq::<u8>::empty()) =~= Seq::empty());
    if rest.len() == 0 {
        assert(rest =~= Seq::<u8>::empty());
        assert(head =~= path);
        assert(prefix + segments(rest) =~= prefix);
    } else {
        if count > 0 {
            assert(path =~= head + seq![0x2fu8] + rest.skip(1));
            law_segments(head, rest.skip(1));
            lemma_leading_slash(rest);
            assert(segments(head) + segments(rest) == prefix + segments(rest));
            assert((segments(head) + segments(rest)).len() == segments(head).len() + segments(
                rest,
            ).len());
            assert(segments(head) =~= (segments(head) + segments(rest)).take(
                segments(head).len() as int,
            ));
            assert(prefix =~= (prefix + segments(rest)).take(count as int));
        } else {
            assert(head =~= Seq::<u8>::empty());
            assert(prefix =~= Seq::empty());
        }
        assert(path == head + tail_after(path, count));
    }
}

/// A pattern that ends with a slash and an asterisk stands for the path in front of these and all
/// paths starting with it, any other pattern for its own path alone.
pub proof fn law_patterns(pattern: Seq<u8>)
    ensures
        pattern_model(pattern).exact <==> !encode_utf8("/*"@).is_suffix_of(pattern),
        pattern_model(pattern).exact ==> pattern_model(pattern).path == segments(pattern),
        forall|path: Seq<u8>|
            pattern == #[trigger] (path + encode_utf8("/*"@)) ==> !pattern_model(pattern).exact
                && pattern_model(pattern).path == segments(path),
{
    reveal_strlit("/*");
    is_ascii_chars_encode_utf8("/*"@);
    let end = encode_utf8("/*"@);
    assert(end =~= seq![0x2fu8, 0x2au8]);
    if is_wildcard(pattern) {
        assert(end =~= pattern.subrange(pattern.len() - 2, pattern.len() as int));
    }
    if end.is_suffix_of(pattern) {
        let last = pattern.subrange(pattern.len() - 2, pattern.len() as int);
        assert(last[0] == pattern[pattern.len() - 2] && last[1] == pattern.last());
    }
    assert forall|path: Seq<u8>| pattern == #[trigger] (path + end) implies !pattern_model(
        pattern,
    ).exact && pattern_model(pattern).path == segments(path) by {
        assert(pattern[pattern.len() - 2] == end[0] && pattern.last() == end[1]);
        assert(pattern.take(pattern.len() - 2) =~= path);
    }
}

/// An exact pattern selects its own path alone, a prefix pattern selects all paths that result
/// from adding any number of segments to its own one.
pub proof fn law_selection(pattern: PatternModel, path: Seq<Seq<u8>>, more: Seq<Seq<u8>>)
    ensures
        pattern.exact ==> (pattern.selects(path) <==> path == pattern.path),
        !pattern.exact ==> pattern.selects(pattern.path + more),
        !pattern.exact && pattern.selects(path) ==> path.len() >= pattern.path.len() && path
            == pattern.path + path.skip(pattern.path.len() as int),
{
    let longer = pattern.path + more;
    assert(pattern.path =~= longer.subrange(0, pattern.path.len() as int));
    if !pattern.exact && pattern.selects(path) {
        assert(path =~= pattern.path + path.skip(pattern.path.len() as int));
    }
}

/// A pattern with more segments is more specific than one with less. With the same number of
/// segments, an exact pattern is more specific than a prefix pattern, and that is all.
pub proof fn law_specificity(a: PatternModel, b: PatternModel)
    ensures
        a.path.len() > b.path.len() ==> a.beats(b) && a.precedes(b) && !b.beats(a),
        a.path.len() == b.path.len() ==> (a.beats(b) <==> a.exact && !b.exact),
        a.beats(b) ==> a.precedes(b) && !b.precedes(a),
        a.path.len() == b.path.len() && a.exact == b.exact ==> (a.precedes(b) <==> comes_before(
            a.path,
            b.path,
            lexicographic(byte_order()),
        )),
{
}

/// What a pattern stands for is what it consists of.
pub proof fn law_pattern_model(pattern: PathMatch)
    ensures
        pattern@.path == pattern.path@,
        pattern@.exact == pattern.exact,
{
}

} // verus!
