//! Matching of request paths against path patterns.
//!
//! A path is read as the list of its segments, the pieces between its `/`
//! characters. A pattern matches a path when both have the same number of
//! segments and each segment of the pattern is either the wildcard `*` or
//! equal to the segment of the path at the same position.

use crate::text::{chars_eq, chars_of, is_star};
use vstd::prelude::*;

verus! {

/// The segments of `path`: the pieces between its `/` characters, first to
/// last. A path without `/` is its own single segment; leading, trailing
/// and doubled `/` give empty segments.
pub open spec fn segments(path: Seq<char>) -> Seq<Seq<char>>
    decreases path.len(),
{
    if path.len() == 0 {
        seq![Seq::empty()]
    } else {
        let before = segments(path.drop_last());
        if path.last() == '/' {
            before.push(Seq::empty())
        } else {
            before.drop_last().push(before.last().push(path.last()))
        }
    }
}

/// The path whose segments are `segs`: the segments with a `/` between
/// each two neighbours.
pub open spec fn join(segs: Seq<Seq<char>>) -> Seq<char>
    decreases segs.len(),
{
    if segs.len() == 0 {
        Seq::empty()
    } else if segs.len() == 1 {
        segs[0]
    } else {
        join(segs.drop_last()) + seq!['/'] + segs.last()
    }
}

/// Whether one segment of a pattern matches one segment of a path: the
/// wildcard `*` matches any one segment, every other segment only itself.
pub open spec fn segment_matches(pattern: Seq<char>, candidate: Seq<char>) -> bool {
    pattern == seq!['*'] || pattern == candidate
}

/// Whether lists of segments match position by position.
pub open spec fn segments_match(pattern: Seq<Seq<char>>, candidate: Seq<Seq<char>>) -> bool {
    &&& pattern.len() == candidate.len()
    &&& forall|i: int|
        #![trigger pattern[i]]
        0 <= i < pattern.len() ==> segment_matches(pattern[i], candidate[i])
}

/// Whether the path pattern `pattern` matches the path `candidate`.
pub open spec fn wildcard_matches(pattern: Seq<char>, candidate: Seq<char>) -> bool {
    segments_match(segments(pattern), segments(candidate))
}

/// Whether the action of a rule covers the action of a request: `*` covers
/// every action, any other action only itself.
pub open spec fn action_matches(rule: Seq<char>, request: Seq<char>) -> bool {
    rule == seq!['*'] || rule == request
}

/// The models of a list of segments.
pub open spec fn segment_views(segs: Seq<Vec<char>>) -> Seq<Seq<char>> {
    segs.map_values(|s: Vec<char>| s@)
}

/// Every path has at least one segment.
pub proof fn lemma_segments_nonempty(path: Seq<char>)
    ensures
        segments(path).len() >= 1,
    decreases path.len(),
{
    if path.len() > 0 {
        lemma_segments_nonempty(path.drop_last());
    }
}

/// Whether `pattern` is free of wildcards: none of its segments is `*`.
pub open spec fn is_literal(pattern: Seq<char>) -> bool {
    forall|i: int|
        0 <= i < segments(pattern).len() ==> #[trigger] segments(pattern)[i] != seq!['*']
}

/// Whether `segment` holds no `/`.
pub open spec fn is_slash_free(segment: Seq<char>) -> bool {
    forall|j: int| 0 <= j < segment.len() ==> segment[j] != '/'
}

/// Whether `segs` can be the segments of a path: there is at least one, and
/// none holds a `/`.
pub open spec fn are_segments(segs: Seq<Seq<char>>) -> bool {
    &&& segs.len() >= 1
    &&& forall|i: int| 0 <= i < segs.len() ==> is_slash_free(#[trigger] segs[i])
}

/// Splitting loses nothing: joining the segments of a path gives the path
/// back, and no segment holds a `/`.
pub proof fn lemma_segments_join(path: Seq<char>)
    ensures
        join(segments(path)) == path,
        are_segments(segments(path)),
    decreases path.len(),
{
    lemma_segments_nonempty(path);
    if path.len() == 0 {
        assert(join(segments(path)) =~= path);
    } else {
        let shorter = path.drop_last();
        let before = segments(shorter);
        let c = path.last();
        lemma_segments_join(shorter);
        lemma_segments_nonempty(shorter);
        assert(shorter.push(c) =~= path);
        if c == '/' {
            let now = before.push(Seq::<char>::empty());
            assert(now.drop_last() =~= before);
            assert(join(now) =~= join(before) + seq!['/'] + Seq::<char>::empty());
            assert(join(now) =~= path);
            assert forall|i: int| 0 <= i < now.len() implies is_slash_free(#[trigger] now[i]) by {
                if i < before.len() {
                    assert(now[i] == before[i]);
                }
            }
        } else {
            let grown = before.last().push(c);
            let now = before.drop_last().push(grown);
            if before.len() == 1 {
                assert(join(before) == before[0]);
                assert(join(now) == now[0]);
                assert(join(now) =~= path);
            } else {
                assert(now.drop_last() =~= before.drop_last());
                assert(join(now) =~= join(before.drop_last()) + seq!['/'] + grown);
                assert(join(before) =~= join(before.drop_last()) + seq!['/'] + before.last());
                assert(join(now) =~= join(before).push(c));
                assert(join(now) =~= path);
            }
            assert forall|i: int| 0 <= i < now.len() implies is_slash_free(#[trigger] now[i]) by {
                if i < now.len() - 1 {
                    assert(now[i] == before[i]);
                } else {
                    assert(is_slash_free(before[before.len() - 1]));
                }
            }
        }
    }
}

/// Characters other than `/` at the end of a path lengthen its last
/// segment.
proof fn lemma_segments_of_longer_path(path: Seq<char>, tail: Seq<char>)
    requires
        is_slash_free(tail),
    ensures
        segments(path + tail) == segments(path).drop_last().push(segments(path).last() + tail),
    decreases tail.len(),
{
    lemma_segments_nonempty(path);
    let split = segments(path);
    if tail.len() == 0 {
        assert(path + tail =~= path);
        assert(split.last() + tail =~= split.last());
        assert(split.drop_last().push(split.last()) =~= split);
    } else {
        let shorter = tail.drop_last();
        let c = tail.last();
        lemma_segments_of_longer_path(path, shorter);
        assert((path + tail).drop_last() =~= path + shorter);
        assert((path + tail).last() == c);
        let before = segments(path + shorter);
        assert(before.drop_last() =~= split.drop_last());
        assert(before.last().push(c) =~= split.last() + tail);
    }
}

/// Joining loses nothing either: the segments of a joined path are the
/// segments that were joined. With [`lemma_segments_join`] this makes paths
/// and lists of segments two forms of the same thing.
pub proof fn lemma_segments_of_join(segs: Seq<Seq<char>>)
    requires
        are_segments(segs),
    ensures
        segments(join(segs)) == segs,
    decreases segs.len(),
{
    let empty = Seq::<char>::empty();
    if segs.len() == 1 {
        lemma_segments_of_longer_path(empty, segs[0]);
        assert(empty + segs[0] =~= segs[0]);
        assert(segments(empty) =~= seq![empty]);
        assert(segments(empty).drop_last().push(empty + segs[0]) =~= segs);
    } else {
        let front = segs.drop_last();
        assert forall|i: int| 0 <= i < front.len() implies is_slash_free(#[trigger] front[i]) by {
            assert(front[i] == segs[i]);
        }
        lemma_segments_of_join(front);
        let opened = join(front).push('/');
        assert(opened.drop_last() =~= join(front));
        assert(segments(opened) == front.push(empty));
        lemma_segments_of_longer_path(opened, segs.last());
        assert(opened + segs.last() =~= join(segs));
        assert(front.push(empty).drop_last().push(empty + segs.last()) =~= segs);
    }
}

/// Matching is matching of segments: the path made of the segments
/// `pattern` matches the path made of the segments `candidate` exactly when
/// there are as many of the one as of the other and each segment of the
/// pattern is `*` or the segment of the candidate at its position.
pub proof fn lemma_match_by_segments(pattern: Seq<Seq<char>>, candidate: Seq<Seq<char>>)
    requires
        are_segments(pattern),
        are_segments(candidate),
    ensures
        wildcard_matches(join(pattern), join(candidate)) <==> segments_match(pattern, candidate),
{
    lemma_segments_of_join(pattern);
    lemma_segments_of_join(candidate);
}

/// A pattern without wildcards matches exactly one path: itself.
pub proof fn lemma_literal_pattern_matches_itself_only(pattern: Seq<char>, candidate: Seq<char>)
    requires
        is_literal(pattern),
    ensures
        wildcard_matches(pattern, candidate) <==> pattern == candidate,
{
    if wildcard_matches(pattern, candidate) {
        let ps = segments(pattern);
        let cs = segments(candidate);
        assert forall|i: int| 0 <= i < ps.len() implies ps[i] == cs[i] by {
            assert(segment_matches(ps[i], cs[i]));
        }
        assert(ps =~= cs);
        lemma_segments_join(pattern);
        lemma_segments_join(candidate);
    }
}

/// Every path matches itself, whatever its segments are.
pub proof fn lemma_path_matches_itself(path: Seq<char>)
    ensures
        wildcard_matches(path, path),
{
}

/// A wildcard stands for exactly one segment: a pattern matches only paths
/// with as many segments as it has itself.
pub proof fn lemma_match_keeps_depth(pattern: Seq<char>, candidate: Seq<char>)
    requires
        wildcard_matches(pattern, candidate),
    ensures
        segments(pattern).len() == segments(candidate).len(),
{
}

/// Splits `path` at its `/` characters.
pub fn split_segments(path: &Vec<char>) -> (segs: Vec<Vec<char>>)
    ensures
        segment_views(segs@) == segments(path@),
{
    let mut done: Vec<Vec<char>> = Vec::new();
    let mut current: Vec<char> = Vec::new();
    let mut i: usize = 0;
    assert(path@.take(0) =~= Seq::<char>::empty());
    assert(segment_views(done@).push(current@) =~= segments(path@.take(0)));
    while i < path.len()
        invariant
            i <= path.len(),
            segment_views(done@).push(current@) == segments(path@.take(i as int)),
        decreases path.len() - i,
    {
        let c = path[i];
        proof {
            let prefix = path@.take(i as int + 1);
            assert(prefix.drop_last() =~= path@.take(i as int));
            assert(prefix.last() == c);
        }
        let ghost before = segment_views(done@).push(current@);
        if c == '/' {
            done.push(current);
            current = Vec::new();
            assert(segment_views(done@).push(current@) =~= before.push(Seq::empty()));
        } else {
            current.push(c);
            assert(segment_views(done@).push(current@) =~= before.drop_last().push(
                before.last().push(c),
            ));
        }
        i += 1;
    }
    assert(path@.take(path.len() as int) =~= path@);
    let ghost before = segment_views(done@).push(current@);
    done.push(current);
    assert(segment_views(done@) =~= before);
    done
}

/// Matches split paths position by position, left to right; the first
/// segment that does not match settles the answer.
pub fn match_segments(pattern: &Vec<Vec<char>>, candidate: &Vec<Vec<char>>) -> (matched: bool)
    ensures
        matched == segments_match(segment_views(pattern@), segment_views(candidate@)),
{
    if pattern.len() != candidate.len() {
        return false;
    }
    let mut i: usize = 0;
    while i < pattern.len()
        invariant
            i <= pattern.len(),
            pattern.len() == candidate.len(),
            forall|j: int|
                0 <= j < i ==> segment_matches(
                    #[trigger] segment_views(pattern@)[j],
                    segment_views(candidate@)[j],
                ),
        decreases pattern.len() - i,
    {
        if !is_star(&pattern[i]) && !chars_eq(&pattern[i], &candidate[i]) {
            assert(!segment_matches(
                segment_views(pattern@)[i as int],
                segment_views(candidate@)[i as int],
            ));
            return false;
        }
        i += 1;
    }
    true
}

/// Decides whether the path pattern `pattern` matches the path `candidate`.
pub fn match_path(pattern: &str, candidate: &str) -> (matched: bool)
    ensures
        matched == wildcard_matches(pattern@, candidate@),
{
    let pattern_segments = split_segments(&chars_of(pattern));
    let candidate_segments = split_segments(&chars_of(candidate));
    match_segments(&pattern_segments, &candidate_segments)
}

/// Decides whether the action of a rule covers the action of a request.
pub fn match_action(rule: &Vec<char>, request: &Vec<char>) -> (matched: bool)
    ensures
        matched == action_matches(rule@, request@),
{
    is_star(rule) || chars_eq(rule, request)
}

} // verus!
