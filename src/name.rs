//! Domain names in DNS wire format: length-prefixed labels with compression pointers.
use vstd::prelude::*;

verus! {

/// Most compression pointers followed while reading one name.
pub const MAX_JUMPS: u8 = 128;

/// Every label has between 1 and 63 bytes.
pub open spec fn labels_valid(labels: Seq<Seq<u8>>) -> bool {
    forall|i: int| 0 <= i < labels.len() ==> 1 <= (#[trigger] labels[i]).len() <= 63
}

/// Labels read off the wire have between 1 and 63 bytes.
pub proof fn lemma_labels_from_valid(msg: Seq<u8>, pos: int, budget: nat)
    requires
        labels_from(msg, pos, budget) is Some,
    ensures
        labels_valid(labels_from(msg, pos, budget).unwrap()),
    decreases budget, msg.len() - pos,
{
    let b = msg[pos];
    if b >= 0xC0 {
        lemma_labels_from_valid(msg, pointer_target(b, msg[pos + 1]), (budget - 1) as nat);
    } else if b != 0 {
        let l = msg.subrange(pos + 1, pos + 1 + b);
        let rest = labels_from(msg, pos + 1 + b, budget).unwrap();
        lemma_labels_from_valid(msg, pos + 1 + b, budget);
        let all = labels_from(msg, pos, budget).unwrap();
        assert(all == seq![l] + rest);
        assert forall|i: int| 0 <= i < all.len() implies 1 <= (#[trigger] all[i]).len() <= 63 by {
            if i > 0 {
                assert(all[i] == rest[i - 1]);
            }
        }
    }
}

/// Offset into the message named by a compression pointer whose first byte is `hi`.
pub open spec fn pointer_target(hi: u8, lo: u8) -> int {
    (hi as int - 0xC0) * 256 + lo as int
}

/// Attaches the items already read in front of those still to come.
pub open spec fn prepend<T>(acc: Seq<T>, rest: Option<Seq<T>>) -> Option<Seq<T>> {
    match rest {
        Some(r) => Some(acc + r),
        None => None,
    }
}

/// Labels read from `pos`, following at most `budget` compression pointers.
pub open spec fn labels_from(msg: Seq<u8>, pos: int, budget: nat) -> Option<Seq<Seq<u8>>>
    decreases budget, msg.len() - pos,
{
    if pos < 0 || pos >= msg.len() {
        None
    } else {
        let b = msg[pos];
        if b == 0 {
            Some(Seq::empty())
        } else if b >= 0xC0 {
            if pos + 1 >= msg.len() || budget == 0 {
                None
            } else {
                labels_from(msg, pointer_target(b, msg[pos + 1]), (budget - 1) as nat)
            }
        } else if b >= 64 || pos + 1 + b > msg.len() {
            None
        } else {
            prepend(
                seq![msg.subrange(pos + 1, pos + 1 + b)],
                labels_from(msg, pos + 1 + b, budget),
            )
        }
    }
}

/// Offset just past the name that starts at `pos`: after its root label or its first pointer.
pub open spec fn name_end(msg: Seq<u8>, pos: int) -> Option<int>
    decreases msg.len() - pos,
{
    if pos < 0 || pos >= msg.len() {
        None
    } else {
        let b = msg[pos];
        if b == 0 {
            Some(pos + 1)
        } else if b >= 0xC0 {
            if pos + 1 >= msg.len() { None } else { Some(pos + 2) }
        } else if b >= 64 || pos + 1 + b > msg.len() {
            None
        } else {
            name_end(msg, pos + 1 + b)
        }
    }
}

/// The name at `pos` and the offset after it, or `None` where it is malformed.
pub open spec fn name_at(msg: Seq<u8>, pos: int) -> Option<(Seq<Seq<u8>>, int)> {
    match (labels_from(msg, pos, MAX_JUMPS as nat), name_end(msg, pos)) {
        (Some(l), Some(e)) => Some((l, e)),
        _ => None,
    }
}

/// The labels of a name, as byte sequences.
pub open spec fn view_labels(v: Seq<Vec<u8>>) -> Seq<Seq<u8>> {
    v.map_values(|l: Vec<u8>| l@)
}

/// A name ends after it starts and within the message.
pub proof fn lemma_name_end_bounds(msg: Seq<u8>, pos: int)
    requires
        name_end(msg, pos) is Some,
    ensures
        0 <= pos < name_end(msg, pos).unwrap() <= msg.len(),
    decreases msg.len() - pos,
{
    let b = msg[pos];
    if b != 0 && b < 0xC0 {
        lemma_name_end_bounds(msg, pos + 1 + b);
    }
}

/// The bytes `msg[from..to]` as a vector of their own.
pub fn copy_bytes(msg: &[u8], from: usize, to: usize) -> (r: Vec<u8>)
    requires
        from <= to <= msg@.len(),
    ensures
        r@ == msg@.subrange(from as int, to as int),
{
    let mut r: Vec<u8> = Vec::new();
    let mut i: usize = from;
    while i < to
        invariant
            from <= i <= to <= msg@.len(),
            r@ == msg@.subrange(from as int, i as int),
        decreases to - i,
    {
        r.push(msg[i]);
        i = i + 1;
        assert(r@ =~= msg@.subrange(from as int, i as int));
    }
    r
}

/// Reads the name that starts at `start`, resolving compression pointers against
/// the whole message. Returns its labels and the offset just past it.
pub fn read_name(msg: &[u8], start: usize) -> (r: Option<(Vec<Vec<u8>>, usize)>)
    ensures
        r is Some <==> name_at(msg@, start as int) is Some,
        r matches Some((labels, end)) ==> name_at(msg@, start as int) == Some(
            (view_labels(labels@), end as int),
        ),
{
    let mut labels: Vec<Vec<u8>> = Vec::new();
    let mut pos: usize = start;
    let mut budget: u8 = MAX_JUMPS;
    let mut end: Option<usize> = None;
    loop
        invariant
            prepend(view_labels(labels@), labels_from(msg@, pos as int, budget as nat))
                == labels_from(msg@, start as int, MAX_JUMPS as nat),
            end is None ==> name_end(msg@, pos as int) == name_end(msg@, start as int),
            end matches Some(e) ==> name_end(msg@, start as int) == Some(e as int),
        decreases budget, msg@.len() - pos,
    {
        if pos >= msg.len() {
            return None;
        }
        let b = msg[pos];
        if b == 0 {
            let e = match end {
                Some(e) => e,
                None => pos + 1,
            };
            assert(view_labels(labels@) + Seq::<Seq<u8>>::empty() =~= view_labels(labels@));
            return Some((labels, e));
        } else if b >= 0xC0 {
            if pos + 1 >= msg.len() || budget == 0 {
                return None;
            }
            let target = (b - 0xC0) as usize * 256 + msg[pos + 1] as usize;
            if end.is_none() {
                end = Some(pos + 2);
            }
            budget = budget - 1;
            pos = target;
        } else if b >= 64 || b as usize > msg.len() - pos - 1 {
            return None;
        } else {
            let next = pos + 1 + b as usize;
            let label = copy_bytes(msg, pos + 1, next);
            let ghost before = view_labels(labels@);
            labels.push(label);
            assert(view_labels(labels@) =~= before.push(label@));
            proof {
                let rest = labels_from(msg@, next as int, budget as nat);
                if let Some(r) = rest {
                    assert(before + (seq![label@] + r) =~= before.push(label@) + r);
                }
            }
            pos = next;
        }
    }
}

} // verus!
