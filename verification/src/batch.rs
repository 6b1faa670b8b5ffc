//! Order-preserving batch fetching: a fixed upper bound on addresses per
//! remote call forces the input list into chunks; chunk results are
//! reassembled so that output slot `i` always answers input address `i`,
//! and a failed chunk degrades every one of its slots to "not found".

use vstd::prelude::*;
use crate::account::RawAccountRecord;
use crate::account::RecordModel;
use crate::account::spec_opt_records;
use crate::address::Address;
use crate::errors::ScanError;
use vstd::arithmetic::div_mod::lemma_basic_div;
use vstd::arithmetic::div_mod::lemma_small_mod;
use vstd::arithmetic::div_mod::lemma_mod_add_multiples_vanish;
use vstd::arithmetic::div_mod::lemma_fundamental_div_mod;
use vstd::arithmetic::mul::lemma_mul_equality_converse;
use vstd::arithmetic::mul::lemma_mul_is_distributive_add;
use vstd::arithmetic::mul::lemma_mul_basics;

verus! {

/// The most addresses one remote query may carry.
pub const MAX_ADDRESSES_PER_REQUEST: usize = 100;

/// The contents of a sequence of vectors.
pub open spec fn spec_vec_views<T>(s: Seq<Vec<T>>) -> Seq<Seq<T>> {
    s.map_values(|c: Vec<T>| c@)
}

/// The input split front-to-back into chunks of `k`, the last chunk holding
/// the remainder.
pub open spec fn spec_chunks<A>(s: Seq<A>, k: nat) -> Seq<Seq<A>>
    decreases s.len(), when k >= 1
{
    if s.len() == 0 {
        Seq::empty()
    } else if s.len() <= k {
        seq![s]
    } else {
        seq![s.take(k as int)] + spec_chunks(s.skip(k as int), k)
    }
}

pub open spec fn spec_chunk_sizes<A>(chunks: Seq<Seq<A>>) -> Seq<nat> {
    chunks.map_values(|c: Seq<A>| c.len())
}

/// All slots of a chunk degraded to "not found".
pub open spec fn spec_none_slots<T>(size: nat) -> Seq<Option<T>> {
    Seq::new(size, |idx: int| None)
}

/// What one chunk contributes to the assembled output: its own slots when
/// the request succeeded with one slot per address, otherwise one "not
/// found" per address of the chunk.
pub open spec fn spec_resolve_chunk<T>(
    size: nat,
    outcome: Result<Seq<Option<T>>, ScanError>,
) -> Seq<Option<T>> {
    match outcome {
        Ok(v) => if v.len() == size {
            v
        } else {
            spec_none_slots(size)
        },
        Err(_) => spec_none_slots(size),
    }
}

/// The assembled output: each chunk resolved in order.
pub open spec fn spec_assemble<T>(
    sizes: Seq<nat>,
    outcomes: Seq<Result<Seq<Option<T>>, ScanError>>,
) -> Seq<Option<T>>
    decreases sizes.len(),
{
    if sizes.len() == 0 {
        Seq::empty()
    } else {
        spec_resolve_chunk(sizes[0], outcomes[0]) + spec_assemble(
            sizes.drop_first(),
            outcomes.drop_first(),
        )
    }
}

/// Splits a list into chunks of at most `k` items, preserving order.
pub fn chunk_items<T>(items: Vec<T>, k: usize) -> (r: Vec<Vec<T>>)
    requires
        k >= 1,
    ensures
        spec_vec_views(r@) == spec_chunks(items@, k as nat),
{
    let ghost all = items@;
    let mut rest = items;
    let mut chunks: Vec<Vec<T>> = Vec::new();
    proof {
        assert(spec_vec_views(chunks@) =~= Seq::<Seq<T>>::empty());
        assert(Seq::<Seq<T>>::empty() + spec_chunks(rest@, k as nat) =~= spec_chunks(
            rest@,
            k as nat,
        ));
    }
    while rest.len() > k
        invariant
            k >= 1,
            spec_chunks(all, k as nat) == spec_vec_views(chunks@) + spec_chunks(rest@, k as nat),
        decreases rest@.len(),
    {
        let ghost before = rest@;
        let ghost prev = spec_vec_views(chunks@);
        let tail = rest.split_off(k);
        chunks.push(rest);
        rest = tail;
        proof {
            assert(before.take(k as int) =~= before.subrange(0, k as int));
            assert(before.skip(k as int) =~= before.subrange(k as int, before.len() as int));
            assert(spec_chunks(before, k as nat) == seq![before.take(k as int)] + spec_chunks(
                before.skip(k as int),
                k as nat,
            ));
            assert(spec_vec_views(chunks@) =~= prev.push(before.take(k as int)));
            assert(spec_vec_views(chunks@) + spec_chunks(rest@, k as nat) =~= prev + spec_chunks(
                before,
                k as nat,
            ));
        }
    }
    if rest.len() > 0 {
        let ghost prev = spec_vec_views(chunks@);
        let ghost last = rest@;
        chunks.push(rest);
        proof {
            assert(spec_chunks(last, k as nat) == seq![last]);
            assert(spec_vec_views(chunks@) =~= prev.push(last));
            assert(prev.push(last) =~= prev + seq![last]);
        }
        chunks
    } else {
        proof {
            assert(spec_chunks(rest@, k as nat) =~= Seq::<Seq<T>>::empty());
            assert(spec_vec_views(chunks@) + Seq::<Seq<T>>::empty() =~= spec_vec_views(chunks@));
        }
        chunks
    }
}

/// A vector of `size` "not found" slots.
fn none_slots(size: usize) -> (r: Vec<Option<RawAccountRecord>>)
    ensures
        spec_opt_records(r@) == spec_none_slots::<RecordModel>(size as nat),
{
    let mut r: Vec<Option<RawAccountRecord>> = Vec::new();
    let mut i: usize = 0;
    while i < size
        invariant
            i <= size,
            r@.len() == i,
            forall|j: int| 0 <= j < i ==> r@[j] is None,
        decreases size - i,
    {
        r.push(None);
        i = i + 1;
    }
    proof {
        assert(spec_opt_records(r@) =~= spec_none_slots::<RecordModel>(size as nat));
    }
    r
}

/// The model of one chunk outcome.
pub open spec fn spec_outcome_model(
    o: Result<Vec<Option<RawAccountRecord>>, ScanError>,
) -> Result<Seq<Option<RecordModel>>, ScanError> {
    match o {
        Ok(v) => Ok(spec_opt_records(v@)),
        Err(e) => Err(e),
    }
}

pub open spec fn spec_outcome_models(
    s: Seq<Result<Vec<Option<RawAccountRecord>>, ScanError>>,
) -> Seq<Result<Seq<Option<RecordModel>>, ScanError>> {
    s.map_values(|o: Result<Vec<Option<RawAccountRecord>>, ScanError>| spec_outcome_model(o))
}

/// Reassembles per-chunk outcomes into one slot list, in chunk order: a
/// successful chunk with one slot per address contributes its slots, any
/// other outcome contributes one "not found" per address of that chunk.
pub fn assemble_chunk_results(
    chunks: &Vec<Vec<Address>>,
    outcomes: Vec<Result<Vec<Option<RawAccountRecord>>, ScanError>>,
) -> (r: Vec<Option<RawAccountRecord>>)
    requires
        outcomes@.len() == chunks@.len(),
    ensures
        spec_opt_records(r@) == spec_assemble(
            spec_chunk_sizes(spec_vec_views(chunks@)),
            spec_outcome_models(outcomes@),
        ),
{
    let ghost sizes = spec_chunk_sizes(spec_vec_views(chunks@));
    let ghost models = spec_outcome_models(outcomes@);
    let ghost all_out = outcomes@;
    let mut rest = outcomes;
    let mut result: Vec<Option<RawAccountRecord>> = Vec::new();
    let mut j: usize = 0;
    proof {
        assert(sizes.skip(0) =~= sizes);
        assert(models.skip(0) =~= models);
        assert(all_out.skip(0) =~= all_out);
        assert(spec_opt_records(result@) =~= Seq::<Option<RecordModel>>::empty());
        assert(Seq::<Option<RecordModel>>::empty() + spec_assemble(sizes, models) =~= spec_assemble(
            sizes,
            models,
        ));
    }
    while j < chunks.len()
        invariant
            j <= chunks@.len(),
            sizes == spec_chunk_sizes(spec_vec_views(chunks@)),
            models == spec_outcome_models(all_out),
            all_out.len() == chunks@.len(),
            rest@ == all_out.skip(j as int),
            spec_assemble(sizes, models) == spec_opt_records(result@) + spec_assemble(
                sizes.skip(j as int),
                models.skip(j as int),
            ),
        decreases chunks@.len() - j,
    {
        let outcome = rest.remove(0);
        let size = chunks[j].len();
        proof {
            assert(outcome == all_out[j as int]);
            assert(rest@ =~= all_out.skip(j as int + 1));
            assert(sizes.skip(j as int)[0] == sizes[j as int]);
            assert(models.skip(j as int)[0] == models[j as int]);
            assert(sizes.skip(j as int).drop_first() =~= sizes.skip(j as int + 1));
            assert(models.skip(j as int).drop_first() =~= models.skip(j as int + 1));
            assert(sizes[j as int] == size as nat);
            assert(models[j as int] == spec_outcome_model(all_out[j as int]));
            assert(spec_assemble(sizes.skip(j as int), models.skip(j as int))
                == spec_resolve_chunk(sizes[j as int], models[j as int]) + spec_assemble(
                sizes.skip(j as int + 1),
                models.skip(j as int + 1),
            ));
        }
        let ghost res0 = spec_opt_records(result@);
        let ghost contribution = spec_resolve_chunk(sizes[j as int], models[j as int]);
        match outcome {
            Ok(mut v) => {
                if v.len() == size {
                    let ghost vv = v@;
                    result.append(&mut v);
                    proof {
                        assert(spec_opt_records(result@) =~= res0 + spec_opt_records(vv));
                        assert(spec_opt_records(vv).len() == size as nat);
                        assert(contribution == spec_opt_records(vv));
                    }
                } else {
                    let mut nones = none_slots(size);
                    result.append(&mut nones);
                    proof {
                        assert(spec_opt_records(v@).len() != size as nat);
                        assert(contribution == spec_none_slots::<RecordModel>(size as nat));
                        assert(spec_opt_records(result@) =~= res0 + contribution);
                    }
                }
            },
            Err(_) => {
                let mut nones = none_slots(size);
                result.append(&mut nones);
                proof {
                    assert(contribution == spec_none_slots::<RecordModel>(size as nat));
                    assert(spec_opt_records(result@) =~= res0 + contribution);
                }
            },
        }
        proof {
            assert(res0 + (contribution + spec_assemble(
                sizes.skip(j as int + 1),
                models.skip(j as int + 1),
            )) =~= (res0 + contribution) + spec_assemble(
                sizes.skip(j as int + 1),
                models.skip(j as int + 1),
            ));
        }
        j = j + 1;
    }
    proof {
        assert(sizes.skip(chunks@.len() as int) =~= Seq::<nat>::empty());
        assert(spec_assemble(Seq::<nat>::empty(), models.skip(chunks@.len() as int)) == Seq::<
            Option<RecordModel>,
        >::empty());
        assert(spec_opt_records(result@) + Seq::<Option<RecordModel>>::empty() =~= spec_opt_records(
            result@,
        ));
    }
    result
}

/// Adding one divisor to a nonnegative dividend steps the quotient by one
/// and keeps the remainder.
proof fn lemma_div_mod_step(x: int, n: int)
    requires
        n > 0,
        x >= 0,
    ensures
        (x + n) / n == x / n + 1,
        (x + n) % n == x % n,
{
    lemma_mod_add_multiples_vanish(x, n);
    lemma_fundamental_div_mod(x, n);
    lemma_fundamental_div_mod(x + n, n);
    assert(n * ((x + n) / n) == n * (x / n + 1)) by {
        lemma_mul_is_distributive_add(n, x / n, 1);
        lemma_mul_basics(n);
    }
    lemma_mul_equality_converse(n, (x + n) / n, x / n + 1);
}

/// The chunk-count law: splitting `n` items into chunks of `k` issues
/// exactly the number of requests that covers them, the ceiling of `n / k`.
pub proof fn lemma_chunk_count<A>(s: Seq<A>, k: nat)
    requires
        k >= 1,
    ensures
        spec_chunks(s, k).len() == (s.len() + k - 1) as int / (k as int),
    decreases s.len(),
{
    let ki = k as int;
    if s.len() == 0 {
        lemma_basic_div(ki - 1, ki);
    } else if s.len() <= k {
        lemma_div_mod_step(s.len() as int - 1, ki);
        lemma_basic_div(s.len() as int - 1, ki);
    } else {
        lemma_chunk_count(s.skip(ki), k);
        lemma_div_mod_step(s.len() as int - 1, ki);
    }
}

/// The batch-ordering law, sizes: the assembled output has exactly one slot
/// per input address, whether or not chunks failed.
pub proof fn lemma_batch_output_len<A, T>(
    addrs: Seq<A>,
    k: nat,
    outcomes: Seq<Result<Seq<Option<T>>, ScanError>>,
)
    requires
        k >= 1,
        outcomes.len() == spec_chunks(addrs, k).len(),
    ensures
        spec_assemble(spec_chunk_sizes(spec_chunks(addrs, k)), outcomes).len() == addrs.len(),
    decreases addrs.len(),
{
    let ki = k as int;
    let chunks = spec_chunks(addrs, k);
    let sizes = spec_chunk_sizes(chunks);
    if addrs.len() == 0 {
        assert(chunks =~= Seq::<Seq<A>>::empty());
        assert(sizes.len() == 0);
    } else if addrs.len() <= k {
        assert(chunks == seq![addrs]);
        assert(sizes.drop_first() =~= Seq::<nat>::empty());
        assert(spec_assemble(sizes, outcomes) == spec_resolve_chunk(sizes[0], outcomes[0])
            + spec_assemble(sizes.drop_first(), outcomes.drop_first()));
        assert(spec_assemble(sizes.drop_first(), outcomes.drop_first()) == Seq::<
            Option<T>,
        >::empty());
        assert(spec_resolve_chunk(sizes[0], outcomes[0]).len() == addrs.len());
    } else {
        let rest_addrs = addrs.skip(ki);
        let rest_out = outcomes.drop_first();
        assert(chunks == seq![addrs.take(ki)] + spec_chunks(rest_addrs, k));
        lemma_batch_output_len(rest_addrs, k, rest_out);
        assert(sizes[0] == k);
        assert(sizes.drop_first() =~= spec_chunk_sizes(spec_chunks(rest_addrs, k)));
        assert(spec_assemble(sizes, outcomes) == spec_resolve_chunk(sizes[0], outcomes[0])
            + spec_assemble(sizes.drop_first(), outcomes.drop_first()));
        assert(spec_assemble(sizes.drop_first(), outcomes.drop_first()) == spec_assemble(
            spec_chunk_sizes(spec_chunks(rest_addrs, k)),
            rest_out,
        ));
        assert(spec_resolve_chunk(k, outcomes[0]).len() == k);
    }
}

/// The batch-ordering law, slots: output slot `i` always answers input
/// address `i`. Address `i` sits in chunk `i / k` at offset `i % k`, and
/// slot `i` is exactly that chunk's resolved slot at that offset — across
/// chunk boundaries, whether or not chunks failed.
pub proof fn lemma_batch_ordering<A, T>(
    addrs: Seq<A>,
    k: nat,
    outcomes: Seq<Result<Seq<Option<T>>, ScanError>>,
    i: int,
)
    requires
        k >= 1,
        outcomes.len() == spec_chunks(addrs, k).len(),
        0 <= i < addrs.len(),
    ensures
        0 <= i / (k as int) < spec_chunks(addrs, k).len(),
        0 <= i % (k as int) < spec_chunks(addrs, k)[i / (k as int)].len(),
        spec_chunks(addrs, k)[i / (k as int)][i % (k as int)] == addrs[i],
        spec_assemble(spec_chunk_sizes(spec_chunks(addrs, k)), outcomes)[i]
            == spec_resolve_chunk(
            spec_chunks(addrs, k)[i / (k as int)].len(),
            outcomes[i / (k as int)],
        )[i % (k as int)],
    decreases addrs.len(),
{
    let ki = k as int;
    let chunks = spec_chunks(addrs, k);
    let sizes = spec_chunk_sizes(chunks);
    let slots = spec_assemble(sizes, outcomes);
    if addrs.len() <= k {
        assert(chunks == seq![addrs]);
        assert(sizes.drop_first() =~= Seq::<nat>::empty());
        assert(slots == spec_resolve_chunk(sizes[0], outcomes[0]) + spec_assemble(
            sizes.drop_first(),
            outcomes.drop_first(),
        ));
        assert(spec_resolve_chunk(sizes[0], outcomes[0]).len() == addrs.len());
        lemma_basic_div(i, ki);
        lemma_small_mod(i as nat, k);
        assert(slots[i] == spec_resolve_chunk(addrs.len(), outcomes[0])[i]);
    } else {
        let rest_addrs = addrs.skip(ki);
        let rest_out = outcomes.drop_first();
        assert(chunks == seq![addrs.take(ki)] + spec_chunks(rest_addrs, k));
        let rest_chunks = spec_chunks(rest_addrs, k);
        let rest_sizes = spec_chunk_sizes(rest_chunks);
        let rest_slots = spec_assemble(rest_sizes, rest_out);
        assert(rest_chunks.len() == outcomes.len() - 1) by {
            assert(chunks.len() == 1 + rest_chunks.len());
        }
        lemma_batch_output_len(rest_addrs, k, rest_out);
        assert(sizes[0] == k);
        assert(sizes.drop_first() =~= rest_sizes);
        assert(slots == spec_resolve_chunk(k, outcomes[0]) + rest_slots);
        assert(spec_resolve_chunk(k, outcomes[0]).len() == k);
        if i < ki {
            lemma_basic_div(i, ki);
            lemma_small_mod(i as nat, k);
            assert(chunks[0] == addrs.take(ki));
            assert(addrs.take(ki)[i] == addrs[i]);
            assert(slots[i] == spec_resolve_chunk(k, outcomes[0])[i]);
        } else {
            lemma_batch_ordering(rest_addrs, k, rest_out, i - ki);
            lemma_div_mod_step(i - ki, ki);
            assert(i / ki == (i - ki) / ki + 1);
            assert(i % ki == (i - ki) % ki);
            assert(chunks[i / ki] == rest_chunks[(i - ki) / ki]);
            assert(outcomes[i / ki] == rest_out[(i - ki) / ki]);
            assert(rest_addrs[i - ki] == addrs[i]);
            assert(slots[i] == rest_slots[i - ki]);
        }
    }
}

} // verus!
