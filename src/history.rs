use std::cmp::Ordering;
use vstd::prelude::*;

verus! {

/// The samples from which a snapshot at a query time is built.
#[derive(Clone, Copy, Debug, PartialEq, Eq, Structural)]
pub enum SamplePick {
    /// The query is at or before the first sample: copy the first sample.
    First,
    /// The query is at or after the last sample: copy the last sample.
    Last,
    /// The query lies between sample `i` and sample `i + 1`: blend the two.
    Between(usize),
}

/// A sample whose time compares as `o` with the query time lies at or
/// before the query (`t_sample <= t`).
pub open spec fn at_or_before(o: Option<Ordering>) -> bool {
    o == Some(Ordering::Less) || o == Some(Ordering::Equal)
}

/// A sample whose time compares as `o` with the query time lies at or
/// after the query (`t_sample >= t`).
pub open spec fn at_or_after(o: Option<Ordering>) -> bool {
    o == Some(Ordering::Greater) || o == Some(Ordering::Equal)
}

/// Samples `i` and `i + 1` enclose the query time.
pub open spec fn brackets(cmp: Seq<Option<Ordering>>, i: int) -> bool {
    0 <= i && i + 1 < cmp.len() && at_or_before(cmp[i]) && at_or_after(cmp[i + 1])
}

/// Every sample time is comparable with the query time (none is NaN).
pub open spec fn all_comparable(cmp: Seq<Option<Ordering>>) -> bool {
    forall|k: int| 0 <= k < cmp.len() ==> (#[trigger] cmp[k]) is Some
}

fn is_at_or_before(o: Option<Ordering>) -> (r: bool)
    ensures
        r == at_or_before(o),
{
    match o {
        Some(Ordering::Less) | Some(Ordering::Equal) => true,
        _ => false,
    }
}

fn is_at_or_after(o: Option<Ordering>) -> (r: bool)
    ensures
        r == at_or_after(o),
{
    match o {
        Some(Ordering::Greater) | Some(Ordering::Equal) => true,
        _ => false,
    }
}

/// Walking forward from a sample at or before the query, towards a last
/// sample that lies after it, a comparable sequence meets a bracket.
proof fn lemma_bracket_after(cmp: Seq<Option<Ordering>>, j: int)
    requires
        0 <= j < cmp.len(),
        all_comparable(cmp),
        at_or_before(cmp[j]),
        !at_or_before(cmp[cmp.len() - 1]),
    ensures
        exists|k: int| j <= k && #[trigger] brackets(cmp, k),
    decreases cmp.len() - j,
{
    if at_or_after(cmp[j + 1]) {
        assert(brackets(cmp, j));
    } else {
        assert(cmp[j + 1] is Some);
        assert(cmp[j + 1] == Some(Ordering::Less));
        lemma_bracket_after(cmp, j + 1);
    }
}

/// Chooses the samples to interpolate between. `cmp[k]` is how the time of
/// sample `k` compares with the query time. The first sample wins when the
/// query is at or before it, then the last sample when the query is at or
/// after it; otherwise the first adjacent pair that encloses the query.
/// `None` means that no pair encloses it, which cannot happen when every
/// comparison is defined.
pub fn pick_samples(cmp: &Vec<Option<Ordering>>) -> (r: Option<SamplePick>)
    requires
        cmp@.len() > 0,
    ensures
        r == Some(SamplePick::First) <==> at_or_after(cmp@[0]),
        r == Some(SamplePick::Last) <==> !at_or_after(cmp@[0]) && at_or_before(
            cmp@[cmp@.len() - 1],
        ),
        forall|i: usize|
            r == Some(SamplePick::Between(i)) <==> {
                &&& !at_or_after(cmp@[0])
                &&& !at_or_before(cmp@[cmp@.len() - 1])
                &&& brackets(cmp@, i as int)
                &&& forall|k: int| 0 <= k < i ==> !brackets(cmp@, k)
            },
        r is None <==> {
            &&& !at_or_after(cmp@[0])
            &&& !at_or_before(cmp@[cmp@.len() - 1])
            &&& forall|k: int| !brackets(cmp@, k)
        },
        all_comparable(cmp@) ==> r is Some,
{
    let n = cmp.len();
    if is_at_or_after(cmp[0]) {
        return Some(SamplePick::First);
    }
    if is_at_or_before(cmp[n - 1]) {
        return Some(SamplePick::Last);
    }
    proof {
        if all_comparable(cmp@) {
            assert(cmp@[0] is Some);
            assert(cmp@[0] == Some(Ordering::Less));
            lemma_bracket_after(cmp@, 0);
        }
    }
    let mut i: usize = 0;
    while i + 1 < n
        invariant
            n == cmp@.len(),
            n > 0,
            i < n,
            !at_or_after(cmp@[0]),
            !at_or_before(cmp@[n - 1]),
            forall|k: int| 0 <= k < i ==> !brackets(cmp@, k),
        decreases n - i,
    {
        if is_at_or_before(cmp[i]) && is_at_or_after(cmp[i + 1]) {
            assert(brackets(cmp@, i as int));
            return Some(SamplePick::Between(i));
        }
        i = i + 1;
    }
    None
}

/// The newest `cap` entries of `s`, oldest first.
pub open spec fn newest<T>(s: Seq<T>, cap: nat) -> Seq<T> {
    if s.len() <= cap {
        s
    } else {
        s.subrange(s.len() - cap, s.len() as int)
    }
}

/// Appends `item` to a history kept to at most `cap` entries, evicting the
/// oldest ones; the order of what stays is kept.
pub fn push_bounded<T>(states: &mut Vec<T>, item: T, cap: usize)
    requires
        cap > 0,
    ensures
        final(states)@ == newest(old(states)@.push(item), cap as nat),
        final(states)@.len() <= cap,
        final(states)@.last() == item,
{
    let ghost orig = states@;
    while states.len() >= cap
        invariant
            cap > 0,
            states@.len() <= orig.len(),
            states@ == orig.subrange(orig.len() - states@.len(), orig.len() as int),
            orig.len() >= cap ==> states@.len() >= cap - 1,
            orig.len() < cap ==> states@.len() == orig.len(),
        decreases states@.len(),
    {
        states.remove(0);
    }
    states.push(item);
    proof {
        let full = orig.push(item);
        if full.len() > cap {
            assert(states@ =~= full.subrange(full.len() - cap, full.len() as int));
        } else {
            assert(states@ =~= full);
        }
    }
}

} // verus!
