//! Source paths: splitting into hierarchy segments, joining, and translating
//! to the host's separator form.
//!
//! The systems side separates the segments of a hierarchical source path with
//! `::`; the host's logging subsystem separates them with a single dot. The
//! filter table and the cache always work on the pre-translation (`::`) form;
//! only the name handed to the host is translated.

use vstd::prelude::*;
use vstd::string::*;

verus! {

/// Splits `s` on each non-overlapping `::`, scanning from the left, with
/// `cur` the partial segment read so far.
pub open spec fn split_acc(s: Seq<char>, cur: Seq<char>) -> Seq<Seq<char>>
    decreases s.len(),
{
    if s.len() >= 2 && s[0] == ':' && s[1] == ':' {
        seq![cur] + split_acc(s.skip(2), Seq::empty())
    } else if s.len() == 0 {
        seq![cur]
    } else {
        split_acc(s.skip(1), cur.push(s[0]))
    }
}

/// The hierarchy segments of a path: the pieces between `::` separators.
pub open spec fn segments(s: Seq<char>) -> Seq<Seq<char>> {
    split_acc(s, Seq::empty())
}

/// Joins segments with the `::` separator.
pub open spec fn join_segments(ss: Seq<Seq<char>>) -> Seq<char>
    decreases ss.len(),
{
    if ss.len() == 0 {
        Seq::empty()
    } else if ss.len() == 1 {
        ss[0]
    } else {
        ss[0] + seq![':', ':'] + join_segments(ss.skip(1))
    }
}

/// The cumulative ancestor prefixes of a path, shortest first; the last one
/// is the whole path.
pub open spec fn prefixes(t: Seq<char>) -> Seq<Seq<char>> {
    Seq::new(segments(t).len(), |j: int| join_segments(segments(t).take(j + 1)))
}

/// The view of each string in a sequence of strings.
pub open spec fn views_of(ss: Seq<String>) -> Seq<Seq<char>> {
    ss.map_values(|x: String| x@)
}

/// Translation of a path to the host's separator form: each non-overlapping
/// `::`, scanning from the left, becomes a single `.`.
pub open spec fn host_name(s: Seq<char>) -> Seq<char>
    decreases s.len(),
{
    if s.len() >= 2 && s[0] == ':' && s[1] == ':' {
        seq!['.'] + host_name(s.skip(2))
    } else if s.len() == 0 {
        Seq::empty()
    } else {
        seq![s[0]] + host_name(s.skip(1))
    }
}

/// The reverse translation: each `.` becomes `::`.
pub open spec fn sys_name(s: Seq<char>) -> Seq<char>
    decreases s.len(),
{
    if s.len() == 0 {
        Seq::empty()
    } else if s[0] == '.' {
        seq![':', ':'] + sys_name(s.skip(1))
    } else {
        seq![s[0]] + sys_name(s.skip(1))
    }
}

/// A split always yields at least one segment.
pub proof fn lemma_split_acc_len(s: Seq<char>, cur: Seq<char>)
    ensures
        split_acc(s, cur).len() >= 1,
    decreases s.len(),
{
    if s.len() >= 2 && s[0] == ':' && s[1] == ':' {
    } else if s.len() == 0 {
    } else {
        lemma_split_acc_len(s.skip(1), cur.push(s[0]));
    }
}

/// Joining what a split produced restores the split input, prefixed by the
/// partial segment the split started from.
pub proof fn lemma_join_split_acc(s: Seq<char>, cur: Seq<char>)
    ensures
        join_segments(split_acc(s, cur)) == cur + s,
    decreases s.len(),
{
    if s.len() >= 2 && s[0] == ':' && s[1] == ':' {
        let rest = split_acc(s.skip(2), Seq::empty());
        lemma_split_acc_len(s.skip(2), Seq::empty());
        lemma_join_split_acc(s.skip(2), Seq::empty());
        let whole = seq![cur] + rest;
        assert(whole[0] == cur);
        assert(whole.skip(1) =~= rest);
        assert(join_segments(rest) =~= s.skip(2));
        assert(cur + seq![':', ':'] + join_segments(rest) =~= cur + s);
    } else if s.len() == 0 {
        assert(cur + s =~= cur);
    } else {
        lemma_join_split_acc(s.skip(1), cur.push(s[0]));
        assert(cur.push(s[0]) + s.skip(1) =~= cur + s);
    }
}

/// Joining the segments of a path gives the path back: the segment view and
/// the string view of a path carry the same information.
pub proof fn lemma_join_segments_id(s: Seq<char>)
    ensures
        join_segments(segments(s)) == s,
{
    lemma_join_split_acc(s, Seq::empty());
    assert(Seq::<char>::empty() + s =~= s);
}

/// The last candidate prefix of a path is the path itself, so an exact match
/// always takes precedence over any strict-ancestor match.
pub proof fn lemma_last_prefix_is_path(t: Seq<char>)
    ensures
        prefixes(t).len() >= 1,
        prefixes(t).last() == t,
{
    lemma_split_acc_len(t, Seq::empty());
    lemma_join_segments_id(t);
    assert(segments(t).take(segments(t).len() as int) =~= segments(t));
}

/// Round trip of the separator translation: translating a dot-free path to
/// the host form and back changes nothing, so the translation loses no
/// information that the filter table or the cache could have read.
pub proof fn lemma_host_name_round_trip(s: Seq<char>)
    requires
        forall|i: int| 0 <= i < s.len() ==> s[i] != '.',
    ensures
        sys_name(host_name(s)) == s,
    decreases s.len(),
{
    if s.len() >= 2 && s[0] == ':' && s[1] == ':' {
        lemma_host_name_round_trip(s.skip(2));
        let inner = host_name(s.skip(2));
        let h = seq!['.'] + inner;
        assert(h[0] == '.');
        assert(h.skip(1) =~= inner);
        assert(seq![':', ':'] + sys_name(inner) =~= s);
    } else if s.len() == 0 {
    } else {
        lemma_host_name_round_trip(s.skip(1));
        let inner = host_name(s.skip(1));
        let h = seq![s[0]] + inner;
        assert(h[0] == s[0]);
        assert(h.skip(1) =~= inner);
        assert(seq![s[0]] + sys_name(inner) =~= s);
    }
}

/// Joining after appending one more segment appends `::` and that segment.
pub proof fn lemma_join_snoc(ss: Seq<Seq<char>>, x: Seq<char>)
    requires
        ss.len() >= 1,
    ensures
        join_segments(ss.push(x)) == join_segments(ss) + seq![':', ':'] + x,
    decreases ss.len(),
{
    if ss.len() == 1 {
        assert(ss.push(x)[0] == ss[0]);
        assert(ss.push(x).skip(1) =~= seq![x]);
        assert(join_segments(seq![x]) == x);
    } else {
        assert(ss.push(x)[0] == ss[0]);
        assert(ss.push(x).skip(1) =~= ss.skip(1).push(x));
        lemma_join_snoc(ss.skip(1), x);
        assert(ss[0] + seq![':', ':'] + (join_segments(ss.skip(1)) + seq![':', ':'] + x) =~= (ss[0]
            + seq![':', ':'] + join_segments(ss.skip(1))) + seq![':', ':'] + x);
    }
}

/// Each ancestor prefix is at least two characters longer than the one
/// before it, so a later prefix is always the longer one.
pub proof fn lemma_prefix_lengths(t: Seq<char>, j1: int, j2: int)
    requires
        0 <= j1 < j2 < prefixes(t).len(),
    ensures
        prefixes(t)[j1].len() < prefixes(t)[j2].len(),
    decreases j2 - j1,
{
    let ss = segments(t);
    if j2 == j1 + 1 {
        assert(ss.take(j1 + 2) =~= ss.take(j1 + 1).push(ss[j1 + 1]));
        lemma_join_snoc(ss.take(j1 + 1), ss[j1 + 1]);
    } else {
        lemma_prefix_lengths(t, j1, j2 - 1);
        lemma_prefix_lengths(t, j2 - 1, j2);
    }
}

/// Splits a path into its `::`-separated segments.
pub fn split_target(target: &str) -> (segs: Vec<String>)
    ensures
        views_of(segs@) == segments(target@),
        segs@.len() >= 1,
{
    let n = target.unicode_len();
    let mut segs: Vec<String> = Vec::new();
    let mut cur = String::new();
    let mut i: usize = 0;
    proof {
        assert(target@.skip(0) =~= target@);
        assert(views_of(segs@) + split_acc(target@, Seq::empty()) =~= split_acc(
            target@,
            Seq::empty(),
        ));
    }
    while i < n
        invariant
            i <= n,
            n == target@.len(),
            segments(target@) == views_of(segs@) + split_acc(target@.skip(i as int), cur@),
        decreases n - i,
    {
        let ghost pre = target@.skip(i as int);
        if i + 1 < n && target.get_char(i) == ':' && target.get_char(i + 1) == ':' {
            proof {
                assert(pre[0] == target@[i as int]);
                assert(pre[1] == target@[i as int + 1]);
                assert(pre.skip(2) =~= target@.skip(i as int + 2));
                assert(views_of(segs@.push(cur)) =~= views_of(segs@) + seq![cur@]);
                assert(views_of(segs@) + (seq![cur@] + split_acc(pre.skip(2), Seq::empty()))
                    =~= (views_of(segs@) + seq![cur@]) + split_acc(pre.skip(2), Seq::empty()));
            }
            segs.push(cur);
            cur = String::new();
            i = i + 2;
        } else {
            proof {
                assert(pre[0] == target@[i as int]);
                assert(pre.skip(1) =~= target@.skip(i as int + 1));
                assert(target@.subrange(i as int, i as int + 1) =~= seq![target@[i as int]]);
            }
            let ghost old_cur = cur@;
            let piece = target.substring_char(i, i + 1);
            cur.append(piece);
            proof {
                assert(cur@ =~= old_cur.push(pre[0]));
            }
            i = i + 1;
        }
    }
    proof {
        assert(target@.skip(n as int) =~= Seq::<char>::empty());
        assert(views_of(segs@.push(cur)) =~= views_of(segs@) + seq![cur@]);
    }
    segs.push(cur);
    segs
}

/// Translates a path to the name used on the host side, replacing each `::`
/// with a dot.
pub fn translate_target(target: &str) -> (r: String)
    ensures
        r@ == host_name(target@),
{
    let n = target.unicode_len();
    let mut out = String::new();
    let mut i: usize = 0;
    proof {
        assert(target@.skip(0) =~= target@);
        assert(out@ + host_name(target@) =~= host_name(target@));
    }
    while i < n
        invariant
            i <= n,
            n == target@.len(),
            host_name(target@) == out@ + host_name(target@.skip(i as int)),
        decreases n - i,
    {
        let ghost pre = target@.skip(i as int);
        if i + 1 < n && target.get_char(i) == ':' && target.get_char(i + 1) == ':' {
            proof {
                reveal_strlit(".");
                assert(pre[0] == target@[i as int]);
                assert(pre[1] == target@[i as int + 1]);
                assert(pre.skip(2) =~= target@.skip(i as int + 2));
            }
            out.append(".");
            proof {
                assert(out@ + host_name(target@.skip(i as int + 2)) =~= host_name(target@));
            }
            i = i + 2;
        } else {
            proof {
                assert(pre[0] == target@[i as int]);
                assert(pre.skip(1) =~= target@.skip(i as int + 1));
                assert(target@.subrange(i as int, i as int + 1) =~= seq![target@[i as int]]);
            }
            let piece = target.substring_char(i, i + 1);
            out.append(piece);
            proof {
                assert(out@ + host_name(target@.skip(i as int + 1)) =~= host_name(target@));
            }
            i = i + 1;
        }
    }
    proof {
        assert(target@.skip(n as int) =~= Seq::<char>::empty());
        assert(out@ + host_name(target@.skip(n as int)) =~= out@);
    }
    out
}

} // verus!
