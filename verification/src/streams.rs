//! How the packets of a run are spread over concurrent QUIC streams.

use vstd::prelude::*;

verus! {

/// A sequence cut into pieces of `size` items, of which the last may be shorter.
pub open spec fn in_chunks<T>(items: Seq<T>, size: nat) -> Seq<Seq<T>>
    decreases items.len(),
{
    if items.len() == 0 || size == 0 {
        Seq::empty()
    } else if items.len() <= size {
        seq![items]
    } else {
        seq![items.take(size as int)] + in_chunks(items.skip(size as int), size)
    }
}

/// How many senders work at a time: as many as asked for, but at least one, and no more
/// than there are packets.
pub open spec fn senders(requested: nat, total: nat) -> nat {
    let some = if requested < 1 {
        1
    } else {
        requested
    };
    if some > total {
        total
    } else {
        some
    }
}

/// How many packets each of `senders` gets: an equal share of `total`, rounded up.
pub open spec fn share(total: nat, senders: nat) -> nat {
    (total + senders - 1) as nat / senders
}

/// Which packets each sender gets: with a single sender all of them, else consecutive
/// shares.
pub open spec fn planned<T>(items: Seq<T>, requested: nat) -> Seq<Seq<T>> {
    let n = senders(requested, items.len());
    if n <= 1 {
        seq![items]
    } else {
        in_chunks(items, share(items.len(), n))
    }
}

/// How many senders work at a time.
pub fn count_senders(requested: usize, total: usize) -> (n: usize)
    ensures
        n == senders(requested as nat, total as nat),
{
    let some: usize = if requested < 1 {
        1
    } else {
        requested
    };
    if some > total {
        total
    } else {
        some
    }
}

/// How many packets each of `senders` gets.
pub fn share_size(total: usize, senders: usize) -> (size: usize)
    requires
        total > 0,
        senders > 0,
    ensures
        size == share(total as nat, senders as nat),
{
    let size: usize = (total - 1) / senders;
    proof {
        let t = total as int;
        let n = senders as int;
        assert((t + n - 1) / n == (t - 1) / n + 1) by (nonlinear_arith)
            requires
                n > 0,
        ;
        assert((t - 1) / n <= t - 1) by (nonlinear_arith)
            requires
                n > 0,
                t > 0,
        ;
    }
    size + 1
}

/// Cuts numbered payloads into pieces of `size`, of which the last may be shorter.
fn cut(payloads: Vec<(u64, Vec<u8>)>, size: usize) -> (pieces: Vec<Vec<(u64, Vec<u8>)>>)
    requires
        size > 0,
    ensures
        pieces@.map_values(|piece: Vec<(u64, Vec<u8>)>| piece@) == in_chunks(
            payloads@,
            size as nat,
        ),
{
    let view = Ghost(|piece: Vec<(u64, Vec<u8>)>| piece@);
    let mut pieces: Vec<Vec<(u64, Vec<u8>)>> = Vec::new();
    let mut rest = payloads;
    assert(pieces@.map_values(view@) + in_chunks(rest@, size as nat) =~= in_chunks(
        payloads@,
        size as nat,
    ));
    while rest.len() > size
        invariant
            size > 0,
            view@ == (|piece: Vec<(u64, Vec<u8>)>| piece@),
            pieces@.map_values(view@) + in_chunks(rest@, size as nat) == in_chunks(
                payloads@,
                size as nat,
            ),
        decreases rest@.len(),
    {
        let ghost before = rest@;
        let ghost done = pieces@.map_values(view@);
        let tail = rest.split_off(size);
        proof {
            assert(rest@ =~= before.take(size as int));
            assert(tail@ =~= before.skip(size as int));
        }
        pieces.push(rest);
        rest = tail;
        proof {
            assert(pieces@.map_values(view@) =~= done.push(before.take(size as int)));
            assert(pieces@.map_values(view@) + in_chunks(rest@, size as nat) =~= done + (seq![
                before.take(size as int),
            ] + in_chunks(rest@, size as nat)));
        }
    }
    if rest.len() > 0 {
        let ghost done = pieces@.map_values(view@);
        let ghost last = rest@;
        pieces.push(rest);
        assert(pieces@.map_values(view@) =~= done + seq![last]);
    } else {
        assert(pieces@.map_values(view@) + Seq::<Seq<(u64, Vec<u8>)>>::empty()
            =~= pieces@.map_values(view@));
    }
    pieces
}

/// Spreads numbered payloads over the senders.
pub fn plan_streams(payloads: Vec<(u64, Vec<u8>)>, requested: usize) -> (plan: Vec<
    Vec<(u64, Vec<u8>)>,
>)
    ensures
        plan@.map_values(|piece: Vec<(u64, Vec<u8>)>| piece@) == planned(
            payloads@,
            requested as nat,
        ),
{
    let n: usize = count_senders(requested, payloads.len());
    if n <= 1 {
        let ghost items = payloads@;
        let mut plan: Vec<Vec<(u64, Vec<u8>)>> = Vec::new();
        plan.push(payloads);
        assert(plan@.map_values(|piece: Vec<(u64, Vec<u8>)>| piece@) =~= seq![items]);
        plan
    } else {
        let size: usize = share_size(payloads.len(), n);
        proof {
            lemma_share(payloads@.len(), n as nat);
        }
        cut(payloads, size)
    }
}

/// A share is not empty, and the shares are enough for everything.
proof fn lemma_share(total: nat, n: nat)
    requires
        total > 0,
        n > 0,
    ensures
        share(total, n) > 0,
        total <= n * share(total, n),
{
    let t = total as int;
    let m = n as int;
    let q = (t + m - 1) / m;
    assert(q > 0 && t <= m * q) by (nonlinear_arith)
        requires
            t > 0,
            m > 0,
            q == (t + m - 1) / m,
    ;
}

proof fn lemma_chunks_flatten<T>(items: Seq<T>, size: nat)
    requires
        size > 0,
    ensures
        in_chunks(items, size).flatten() == items,
    decreases items.len(),
{
    let chunks = in_chunks(items, size);
    if items.len() == 0 {
        assert(chunks.flatten() =~= items);
    } else if items.len() <= size {
        chunks.lemma_flatten_one_element();
    } else {
        let rest = items.skip(size as int);
        lemma_chunks_flatten(rest, size);
        assert(chunks.drop_first() =~= in_chunks(rest, size));
        assert(items =~= items.take(size as int) + rest);
    }
}

proof fn lemma_chunks_count<T>(items: Seq<T>, size: nat, most: nat)
    requires
        size > 0,
        items.len() <= most * size,
    ensures
        in_chunks(items, size).len() <= most,
        forall|i: int|
            0 <= i < in_chunks(items, size).len() ==> 0 < (#[trigger] in_chunks(
                items,
                size,
            )[i]).len() <= size,
        forall|i: int|
            0 <= i < in_chunks(items, size).len() - 1 ==> (#[trigger] in_chunks(
                items,
                size,
            )[i]).len() == size,
    decreases items.len(),
{
    let chunks = in_chunks(items, size);
    if items.len() > 0 {
        assert(most >= 1) by (nonlinear_arith)
            requires
                0 < items.len() <= most * size,
        ;
        if items.len() > size {
            let rest = items.skip(size as int);
            let fewer = (most - 1) as nat;
            assert(most * size == fewer * size + size) by (nonlinear_arith)
                requires
                    fewer == most - 1,
            ;
            lemma_chunks_count(rest, size, fewer);
            assert forall|i: int| 1 <= i < chunks.len() implies chunks[i] == in_chunks(
                rest,
                size,
            )[i - 1] by {}
        }
    }
}

/// Every packet is sent by exactly one sender, and reading the senders' lists in turn
/// gives the packets in their order.
pub proof fn law_plan_sends_everything_once<T>(items: Seq<T>, requested: nat)
    ensures
        planned(items, requested).flatten() == items,
{
    let n = senders(requested, items.len());
    if n <= 1 {
        planned(items, requested).lemma_flatten_one_element();
    } else {
        lemma_share(items.len(), n);
        lemma_chunks_flatten(items, share(items.len(), n));
    }
}

/// There are at most as many senders as were asked for (and one where none were), none of
/// them is idle where there are packets, and all but the last have equally many packets,
/// which the last has at most.
pub proof fn law_plan_is_balanced<T>(items: Seq<T>, requested: nat)
    requires
        items.len() > 0,
    ensures
        1 <= planned(items, requested).len() <= if requested < 1 {
            1
        } else {
            requested
        },
        planned(items, requested).len() <= items.len(),
        forall|i: int|
            0 <= i < planned(items, requested).len() ==> 0 < (#[trigger] planned(
                items,
                requested,
            )[i]).len() <= share(items.len(), senders(requested, items.len())),
        forall|i: int|
            0 <= i < planned(items, requested).len() - 1 ==> (#[trigger] planned(
                items,
                requested,
            )[i]).len() == share(items.len(), senders(requested, items.len())),
{
    let n = senders(requested, items.len());
    lemma_share(items.len(), n);
    if n <= 1 {
        assert(share(items.len(), 1) == items.len());
    } else {
        lemma_chunks_count(items, share(items.len(), n), n);
    }
}

/// As many senders work as were asked for, where there are that many packets; where more
/// were asked for, each packet has its own, and where none were, there is one.
pub proof fn law_senders_are_as_asked(requested: nat, total: nat)
    requires
        total > 0,
    ensures
        1 <= requested <= total ==> senders(requested, total) == requested,
        requested > total ==> senders(requested, total) == total,
        requested == 0 ==> senders(requested, total) == 1,
        senders(requested, 0) == 0,
{
}

/// A share is the least number of packets per sender that is enough for all.
pub proof fn law_share_is_least(total: nat, n: nat)
    requires
        total > 0,
        n > 0,
    ensures
        share(total, n) * n >= total,
        (share(total, n) - 1) * n < total,
{
    let t = total as int;
    let m = n as int;
    let q = (t + m - 1) / m;
    assert(q * m >= t && (q - 1) * m < t) by (nonlinear_arith)
        requires
            t > 0,
            m > 0,
            q == (t + m - 1) / m,
    ;
}

} // verus!
