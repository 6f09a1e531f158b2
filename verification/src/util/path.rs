//! `::`-separated paths: splitting and joining, with the laws that relate them.

use vstd::prelude::*;

verus! {

/// Whether `s` has the separator `::` starting at index `j`.
pub open spec fn sep_at(s: Seq<char>, j: int) -> bool {
    0 <= j && j + 1 < s.len() && s[j] == ':' && s[j + 1] == ':'
}

/// The pieces of `s` between the separators `::`, found greedily from the left
/// (the same pieces as `str::split("::")`).
pub open spec fn split_sep(s: Seq<char>) -> Seq<Seq<char>>
    decreases s.len(),
{
    if s.len() == 0 {
        seq![Seq::<char>::empty()]
    } else if sep_at(s, 0) {
        seq![Seq::<char>::empty()] + split_sep(s.skip(2))
    } else {
        let r = split_sep(s.skip(1));
        r.update(0, seq![s[0]] + r[0])
    }
}

/// The pieces joined with the separator `::`.
pub open spec fn join_sep(parts: Seq<Seq<char>>) -> Seq<char>
    decreases parts.len(),
{
    if parts.len() == 0 {
        Seq::<char>::empty()
    } else if parts.len() == 1 {
        parts[0]
    } else {
        parts[0] + seq![':', ':'] + join_sep(parts.skip(1))
    }
}

pub proof fn lemma_split_nonempty(s: Seq<char>)
    ensures
        split_sep(s).len() >= 1,
    decreases s.len(),
{
    if s.len() == 0 {
    } else if sep_at(s, 0) {
        lemma_split_nonempty(s.skip(2));
    } else {
        lemma_split_nonempty(s.skip(1));
    }
}

/// Joining the pieces of a split gives back the string.
pub proof fn lemma_join_split(s: Seq<char>)
    ensures
        join_sep(split_sep(s)) == s,
    decreases s.len(),
{
    if s.len() == 0 {
    } else if sep_at(s, 0) {
        lemma_join_split(s.skip(2));
        lemma_split_nonempty(s.skip(2));
        let r = split_sep(s.skip(2));
        let parts = seq![Seq::<char>::empty()] + r;
        assert(parts.skip(1) =~= r);
        assert(parts.len() >= 2);
        assert(join_sep(parts) == parts[0] + seq![':', ':'] + join_sep(parts.skip(1)));
        assert(s =~= seq![':', ':'] + s.skip(2));
    } else {
        lemma_join_split(s.skip(1));
        lemma_split_nonempty(s.skip(1));
        let r = split_sep(s.skip(1));
        let parts = r.update(0, seq![s[0]] + r[0]);
        if r.len() == 1 {
            assert(s =~= seq![s[0]] + s.skip(1));
        } else {
            assert(parts.skip(1) =~= r.skip(1));
            assert(join_sep(r) == r[0] + seq![':', ':'] + join_sep(r.skip(1)));
            assert(s =~= seq![s[0]] + s.skip(1));
            assert(join_sep(parts) =~= seq![s[0]] + join_sep(r));
        }
    }
}

/// With the first separator of `s` at `k`, the split is the prefix before it
/// followed by the split of what follows the separator.
pub proof fn lemma_split_first(s: Seq<char>, k: int)
    requires
        sep_at(s, k),
        forall|j: int| 0 <= j < k ==> !sep_at(s, j),
    ensures
        split_sep(s) == seq![s.take(k)] + split_sep(s.skip(k + 2)),
    decreases k,
{
    if k == 0 {
        assert(s.take(0) =~= Seq::<char>::empty());
    } else {
        let t = s.skip(1);
        assert forall|j: int| 0 <= j < k - 1 implies !sep_at(t, j) by {
            assert(!sep_at(s, j + 1));
        }
        assert(sep_at(t, k - 1));
        lemma_split_first(t, k - 1);
        assert(t.skip(k + 1) =~= s.skip(k + 2));
        assert(!sep_at(s, 0));
        let r = split_sep(t);
        assert(split_sep(s) == r.update(0, seq![s[0]] + r[0]));
        assert(seq![s[0]] + t.take(k - 1) =~= s.take(k));
        assert(r.update(0, seq![s[0]] + r[0]) =~= seq![s.take(k)] + split_sep(s.skip(k + 2)));
    }
}

/// Without any separator, the split is the whole string.
pub proof fn lemma_split_none(s: Seq<char>)
    requires
        forall|j: int| 0 <= j < s.len() ==> !sep_at(s, j),
    ensures
        split_sep(s) == seq![s],
    decreases s.len(),
{
    if s.len() == 0 {
        assert(s =~= Seq::<char>::empty());
    } else {
        let t = s.skip(1);
        assert forall|j: int| 0 <= j < t.len() implies !sep_at(t, j) by {
            assert(!sep_at(s, j + 1));
        }
        lemma_split_none(t);
        assert(!sep_at(s, 0));
        let r = split_sep(t);
        assert(split_sep(s) == r.update(0, seq![s[0]] + r[0]));
        assert(seq![s[0]] + t =~= s);
        assert(r.update(0, seq![s[0]] + r[0]) =~= seq![s]);
    }
}

proof fn lemma_split_advance(s: Seq<char>, start: int, i: int)
    requires
        0 <= start <= i,
        sep_at(s, i),
        forall|j: int| start <= j < i ==> !sep_at(s, j),
    ensures
        split_sep(s.skip(start)) == seq![s.subrange(start, i)] + split_sep(s.skip(i + 2)),
{
    let t = s.skip(start);
    let k = i - start;
    assert forall|j: int| 0 <= j < k implies !sep_at(t, j) by {
        assert(!sep_at(s, j + start));
    }
    assert(sep_at(t, k));
    lemma_split_first(t, k);
    assert(t.take(k) =~= s.subrange(start, i));
    assert(t.skip(k + 2) =~= s.skip(i + 2));
}

proof fn lemma_split_rest(s: Seq<char>, start: int)
    requires
        0 <= start <= s.len(),
        forall|j: int| start <= j < s.len() ==> !sep_at(s, j),
    ensures
        split_sep(s.skip(start)) == seq![s.subrange(start, s.len() as int)],
{
    let t = s.skip(start);
    assert forall|j: int| 0 <= j < t.len() implies !sep_at(t, j) by {
        assert(!sep_at(s, j + start));
    }
    lemma_split_none(t);
    assert(t =~= s.subrange(start, s.len() as int));
}

fn is_sep_at(s: &str, j: usize) -> (b: bool)
    requires
        j < s@.len(),
    ensures
        b == sep_at(s@, j as int),
{
    let n = s.unicode_len();
    if j + 1 < n {
        s.get_char(j) == ':' && s.get_char(j + 1) == ':'
    } else {
        false
    }
}

/// Splits `s` at every `::`.
pub fn split_path(s: &str) -> (parts: Vec<String>)
    ensures
        parts@.map_values(|p: String| p@) == split_sep(s@),
{
    let n = s.unicode_len();
    let mut parts: Vec<String> = Vec::new();
    let mut start: usize = 0;
    let mut i: usize = 0;
    proof {
        assert(s@.skip(0) =~= s@);
        assert(parts@.map_values(|p: String| p@) + split_sep(s@.skip(0)) =~= split_sep(s@));
    }
    while i < n
        invariant
            n == s@.len(),
            start <= i <= n,
            parts@.map_values(|p: String| p@) + split_sep(s@.skip(start as int)) == split_sep(s@),
            forall|j: int| start <= j < i ==> !sep_at(s@, j),
        decreases n - i,
    {
        if is_sep_at(s, i) {
            let piece = s.substring_char(start, i).to_owned();
            proof { lemma_split_advance(s@, start as int, i as int); }
            let ghost prev = parts@.map_values(|p: String| p@);
            parts.push(piece);
            proof {
                assert(parts@.map_values(|p: String| p@) =~= prev.push(piece@));
                assert(prev.push(piece@) + split_sep(s@.skip(i + 2))
                    =~= prev + (seq![piece@] + split_sep(s@.skip(i + 2))));
            }
            start = i + 2;
            i = i + 2;
        } else {
            i = i + 1;
        }
    }
    let piece = s.substring_char(start, n).to_owned();
    proof { lemma_split_rest(s@, start as int); }
    let ghost prev = parts@.map_values(|p: String| p@);
    parts.push(piece);
    proof {
        assert(parts@.map_values(|p: String| p@) =~= prev.push(piece@));
        assert(prev + seq![piece@] =~= prev.push(piece@));
    }
    parts
}

/// Joins `parts` with `::`.
pub fn join_path(parts: &Vec<String>) -> (s: String)
    ensures
        s@ == join_sep(parts@.map_values(|p: String| p@)),
{
    let ghost ps = parts@.map_values(|p: String| p@);
    let n = parts.len();
    if n == 0 {
        return String::new();
    }
    // Build from the back: acc == join_sep(ps.skip(i)).
    let mut acc = parts[n - 1].clone();
    let mut i: usize = n - 1;
    proof {
        assert(ps.skip(i as int).len() == 1);
        assert(ps.skip(i as int)[0] == ps[i as int]);
    }
    while i > 0
        invariant
            n == parts@.len(),
            ps == parts@.map_values(|p: String| p@),
            0 <= i < n,
            acc@ == join_sep(ps.skip(i as int)),
        decreases i,
    {
        let mut next = parts[i - 1].clone();
        proof { reveal_strlit("::"); }
        next.append("::");
        next.append(acc.as_str());
        proof {
            let t = ps.skip(i - 1);
            assert(t.len() >= 2);
            assert(t.skip(1) =~= ps.skip(i as int));
            assert(t[0] == ps[i - 1]);
            assert(join_sep(t) == t[0] + seq![':', ':'] + join_sep(t.skip(1)));
        }
        acc = next;
        i = i - 1;
    }
    proof { assert(ps.skip(0) =~= ps); }
    acc
}

} // verus!
