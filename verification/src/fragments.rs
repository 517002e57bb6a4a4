//! Reassembly of fragmented responses.
use std::collections::{BTreeMap, HashMap};
use vstd::prelude::*;

verus! {

broadcast use {
    vstd::laws_cmp::group_laws_cmp,
    vstd::std_specs::btree::group_btree_axioms,
    vstd::std_specs::hash::group_hash_axioms,
};

/// The fragments of one response, by index.
pub type Parts = Map<u8, Seq<u8>>;

/// The responses that are still incomplete, by command.
pub type Pending = Map<u16, Parts>;

/// The command that a two-byte key stands for, high byte first.
pub open spec fn key_cmd(cmd_key: Seq<u8>) -> u16 {
    (cmd_key[0] * 256 + cmd_key[1]) as u16
}

/// The parts whose index is below `bound`, in ascending order of their index.
pub open spec fn joined_below(parts: Parts, bound: nat) -> Seq<u8>
    decreases bound,
{
    if bound == 0 {
        Seq::empty()
    } else {
        let index = (bound - 1) as u8;
        joined_below(parts, (bound - 1) as nat) + (if parts.contains_key(index) {
            parts[index]
        } else {
            Seq::empty()
        })
    }
}

/// All parts, in ascending order of their index.
pub open spec fn joined(parts: Parts) -> Seq<u8> {
    joined_below(parts, 256)
}

/// The parts of a response after one more has come in. Index 1 begins a new sequence and
/// drops what was left of an older one.
pub open spec fn parts_after(pending: Pending, cmd: u16, index: u8, data: Seq<u8>) -> Parts {
    let earlier = if index != 1 && pending.contains_key(cmd) {
        pending[cmd]
    } else {
        Map::empty()
    };
    earlier.insert(index, data)
}

/// What is pending after a fragment has come in, and the response that it completes, if any.
pub open spec fn fed(pending: Pending, cmd: u16, index: u8, total: u8, data: Seq<u8>) -> (
    Pending,
    Option<Seq<u8>>,
) {
    let parts = parts_after(pending, cmd, index, data);
    if total <= 1 {
        (pending, Some(data))
    } else if parts.dom().len() == total {
        (pending.remove(cmd), Some(joined(parts)))
    } else {
        (pending.insert(cmd, parts), None)
    }
}

/// What comes of a run of fragments of one command: what is pending after the last, and the
/// response that the last one completes.
pub open spec fn fed_run(pending: Pending, cmd: u16, total: u8, run: Seq<(u8, Seq<u8>)>) -> (
    Pending,
    Option<Seq<u8>>,
)
    decreases run.len(),
{
    if run.len() == 0 {
        (pending, None)
    } else {
        let earlier = fed_run(pending, cmd, total, run.drop_last()).0;
        fed(earlier, cmd, run.last().0, total, run.last().1)
    }
}

/// The parts that a run of fragments brings.
pub open spec fn run_parts(run: Seq<(u8, Seq<u8>)>) -> Parts
    decreases run.len(),
{
    if run.len() == 0 {
        Map::empty()
    } else {
        run_parts(run.drop_last()).insert(run.last().0, run.last().1)
    }
}

/// The data of a run of fragments, in the order of the run.
pub open spec fn run_data(run: Seq<(u8, Seq<u8>)>) -> Seq<u8>
    decreases run.len(),
{
    if run.len() == 0 {
        Seq::empty()
    } else {
        run_data(run.drop_last()) + run.last().1
    }
}

/// No index occurs twice in the run.
pub open spec fn distinct_indices(run: Seq<(u8, Seq<u8>)>) -> bool {
    forall|i: int, j: int| 0 <= i < j < run.len() ==> (#[trigger] run[i]).0 != (#[trigger] run[j]).0
}

/// A fragment of one command changes nothing that is pending for another.
pub proof fn law_feed_keeps_other_commands(
    pending: Pending,
    cmd: u16,
    other: u16,
    index: u8,
    total: u8,
    data: Seq<u8>,
)
    requires
        other != cmd,
    ensures
        fed(pending, cmd, index, total, data).0.contains_key(other) == pending.contains_key(other),
        pending.contains_key(other) ==> fed(pending, cmd, index, total, data).0[other]
            == pending[other],
{
}

/// Once a fragmented response is complete, nothing of it stays behind.
pub proof fn law_complete_response_leaves_nothing(
    pending: Pending,
    cmd: u16,
    index: u8,
    total: u8,
    data: Seq<u8>,
)
    requires
        total > 1,
        fed(pending, cmd, index, total, data).1 is Some,
    ensures
        !fed(pending, cmd, index, total, data).0.contains_key(cmd),
{
}

/// The indices of a run without repeats are the indices of its parts.
proof fn lemma_run_parts(run: Seq<(u8, Seq<u8>)>)
    requires
        distinct_indices(run),
    ensures
        run_parts(run).dom().finite(),
        run_parts(run).dom().len() == run.len(),
        forall|i: int|
            0 <= i < run.len() ==> run_parts(run).contains_key((#[trigger] run[i]).0) && run_parts(
                run,
            )[run[i].0] == run[i].1,
        forall|index: u8| #[trigger]
            run_parts(run).contains_key(index) ==> exists|i: int|
                0 <= i < run.len() && (#[trigger] run[i]).0 == index,
    decreases run.len(),
{
    if run.len() > 0 {
        let shorter = run.drop_last();
        assert forall|i: int, j: int| 0 <= i < j < shorter.len() implies (#[trigger] shorter[i]).0
            != (#[trigger] shorter[j]).0 by {
            assert(run[i].0 != run[j].0);
        }
        lemma_run_parts(shorter);
        assert(!run_parts(shorter).contains_key(run.last().0)) by {
            if run_parts(shorter).contains_key(run.last().0) {
                let i = choose|i: int|
                    0 <= i < shorter.len() && (#[trigger] shorter[i]).0 == run.last().0;
                assert(run[i].0 != run[run.len() - 1].0);
            }
        }
        assert forall|i: int| 0 <= i < run.len() implies run_parts(run).contains_key(
            (#[trigger] run[i]).0,
        ) && run_parts(run)[run[i].0] == run[i].1 by {
            if i < shorter.len() {
                assert(shorter[i] == run[i]);
                assert(run[i].0 != run[run.len() - 1].0);
            }
        }
        assert forall|index: u8| #[trigger] run_parts(run).contains_key(index) implies exists|
            i: int,
        |
            0 <= i < run.len() && (#[trigger] run[i]).0 == index by {
            if index == run.last().0 {
                assert(run[run.len() - 1].0 == index);
            } else {
                let i = choose|i: int| 0 <= i < shorter.len() && (#[trigger] shorter[i]).0 == index;
                assert(run[i].0 == index);
            }
        }
    }
}

/// Before the run is complete its parts are kept and nothing comes out.
proof fn lemma_run_pending(pending: Pending, cmd: u16, total: u8, run: Seq<(u8, Seq<u8>)>)
    requires
        0 < run.len() < total,
        run[0].0 == 1,
        distinct_indices(run),
    ensures
        fed_run(pending, cmd, total, run) == (
            pending.insert(cmd, run_parts(run)),
            None::<Seq<u8>>,
        ),
    decreases run.len(),
{
    let shorter = run.drop_last();
    lemma_run_parts(run);
    if shorter.len() == 0 {
        assert(run.last() == run[0]);
        assert(fed_run(pending, cmd, total, shorter).0 == pending);
        assert(run_parts(shorter) == Parts::empty());
        assert(parts_after(pending, cmd, 1, run.last().1) == run_parts(run));
    } else {
        assert forall|i: int, j: int| 0 <= i < j < shorter.len() implies (#[trigger] shorter[i]).0
            != (#[trigger] shorter[j]).0 by {
            assert(run[i].0 != run[j].0);
        }
        assert(shorter[0] == run[0]);
        lemma_run_pending(pending, cmd, total, shorter);
        let earlier = pending.insert(cmd, run_parts(shorter));
        assert(run[0].0 != run[run.len() - 1].0);
        assert(parts_after(earlier, cmd, run.last().0, run.last().1) == run_parts(run));
        assert(earlier.insert(cmd, run_parts(run)) =~= pending.insert(cmd, run_parts(run)));
    }
}

/// A response is reassembled whatever the order in which its fragments arrive after the first:
/// a run that begins with index 1, repeats no index and has as many fragments as announced
/// gives nothing before its last fragment, and with its last the data in ascending order of
/// the indices. What was pending for the command is gone then.
pub proof fn law_reassembly(pending: Pending, cmd: u16, total: u8, run: Seq<(u8, Seq<u8>)>)
    requires
        total > 1,
        run.len() == total,
        run[0].0 == 1,
        distinct_indices(run),
    ensures
        forall|k: int|
            0 <= k < total ==> (#[trigger] fed_run(pending, cmd, total, run.take(k))).1 is None,
        fed_run(pending, cmd, total, run) == (pending.remove(cmd), Some(joined(run_parts(run)))),
{
    assert forall|k: int| 0 <= k < total implies (#[trigger] fed_run(
        pending,
        cmd,
        total,
        run.take(k),
    )).1 is None by {
        if k > 0 {
            assert forall|i: int, j: int| 0 <= i < j < run.take(k).len() implies (
            #[trigger] run.take(k)[i]).0 != (#[trigger] run.take(k)[j]).0 by {
                assert(run[i].0 != run[j].0);
            }
            lemma_run_pending(pending, cmd, total, run.take(k));
        }
    }
    let shorter = run.drop_last();
    assert forall|i: int, j: int| 0 <= i < j < shorter.len() implies (#[trigger] shorter[i]).0 != (
    #[trigger] shorter[j]).0 by {
        assert(run[i].0 != run[j].0);
    }
    lemma_run_pending(pending, cmd, total, shorter);
    lemma_run_parts(run);
    let earlier = pending.insert(cmd, run_parts(shorter));
    assert(run[0].0 != run[run.len() - 1].0);
    assert(parts_after(earlier, cmd, run.last().0, run.last().1) == run_parts(run));
    assert(earlier.remove(cmd) =~= pending.remove(cmd));
}

/// Fragments numbered from one up, joined by index, give their data in the order of the run.
proof fn lemma_joined_in_order(run: Seq<(u8, Seq<u8>)>, bound: nat)
    requires
        run.len() <= 255,
        bound <= 256,
        forall|i: int| 0 <= i < run.len() ==> (#[trigger] run[i]).0 == i + 1,
    ensures
        joined_below(run_parts(run), bound) == run_data(
            run.take(
                if bound == 0 {
                    0
                } else if bound <= run.len() + 1 {
                    bound - 1
                } else {
                    run.len() as int
                },
            ),
        ),
    decreases bound,
{
    lemma_run_parts(run);
    if bound > 0 {
        let shorter = (bound - 1) as nat;
        let index = shorter as u8;
        lemma_joined_in_order(run, shorter);
        if 1 <= shorter <= run.len() {
            assert(run[shorter - 1].0 == index);
            assert(run.take(shorter as int).drop_last() =~= run.take(shorter - 1));
        } else {
            assert(!run_parts(run).contains_key(index)) by {
                if run_parts(run).contains_key(index) {
                    let i = choose|i: int| 0 <= i < run.len() && (#[trigger] run[i]).0 == index;
                    assert(run[i].0 == i + 1);
                }
            }
        }
        assert(joined_below(run_parts(run), bound) =~= run_data(
            run.take(
                if bound <= run.len() + 1 {
                    bound - 1
                } else {
                    run.len() as int
                },
            ),
        ));
    }
}

/// Fragments that arrive in order, numbered from one up, come out as their data in that order.
pub proof fn law_reassembly_in_order(
    pending: Pending,
    cmd: u16,
    total: u8,
    run: Seq<(u8, Seq<u8>)>,
)
    requires
        total > 1,
        run.len() == total,
        forall|i: int| 0 <= i < run.len() ==> (#[trigger] run[i]).0 == i + 1,
    ensures
        fed_run(pending, cmd, total, run) == (pending.remove(cmd), Some(run_data(run))),
{
    law_reassembly(pending, cmd, total, run);
    lemma_joined_in_order(run, 256);
    assert(run.take(run.len() as int) =~= run);
}

/// The bytes of a map of fragments.
spec fn parts_of(m: BTreeMap<u8, Vec<u8>>) -> Parts {
    m@.map_values(|v: Vec<u8>| v@)
}

/// Reassembles fragmented encrypted responses.
///
/// Pattern `03 01 0F` payloads carry a one-byte fragment header:
///   - high nibble = 1-based fragment index
///   - low nibble  = total fragment count
pub struct FragmentBuffer {
    pending: HashMap<u16, BTreeMap<u8, Vec<u8>>>,
}

impl View for FragmentBuffer {
    type V = Pending;

    closed spec fn view(&self) -> Pending {
        self.pending@.map_values(|m: BTreeMap<u8, Vec<u8>>| parts_of(m))
    }
}

impl Default for FragmentBuffer {
    fn default() -> (r: Self)
        ensures
            r@ == Pending::empty(),
    {
        let r = FragmentBuffer { pending: HashMap::new() };
        assert(r@ =~= Pending::empty());
        r
    }
}

/// The parts in ascending order of their index.
fn join(parts: &BTreeMap<u8, Vec<u8>>) -> (r: Vec<u8>)
    ensures
        r@ == joined(parts_of(*parts)),
{
    let mut r: Vec<u8> = Vec::new();
    let mut bound: u16 = 0;
    while bound < 256
        invariant
            bound <= 256,
            r@ == joined_below(parts_of(*parts), bound as nat),
        decreases 256 - bound,
    {
        let index: u8 = bound as u8;
        match parts.get(&index) {
            Some(data) => {
                r.extend_from_slice(data.as_slice());
            },
            None => {},
        }
        bound += 1;
    }
    r
}

impl FragmentBuffer {
    /// Feed a fragment. Returns `Some(reassembled_ciphertext)` when complete.
    pub fn feed(&mut self, cmd_key: [u8; 2], index: u8, total: u8, data: Vec<u8>) -> (r: Option<
        Vec<u8>,
    >)
        ensures
            final(self)@ == fed(old(self)@, key_cmd(cmd_key@), index, total, data@).0,
            r is Some <==> fed(old(self)@, key_cmd(cmd_key@), index, total, data@).1 is Some,
            r matches Some(whole) ==> fed(old(self)@, key_cmd(cmd_key@), index, total, data@).1
                == Some(whole@),
            total <= 1 ==> r is Some && r->0@ == data@ && final(self)@ == old(self)@,
    {
        if total <= 1 {
            return Some(data);
        }
        let cmd: u16 = cmd_key[0] as u16 * 256 + cmd_key[1] as u16;
        let ghost bytes = data@;
        let earlier = self.pending.remove(&cmd);
        let mut parts: BTreeMap<u8, Vec<u8>> = match earlier {
            Some(parts) => if index == 1 {
                BTreeMap::new()
            } else {
                parts
            },
            None => BTreeMap::new(),
        };
        parts.insert(index, data);
        proof {
            assert(parts_of(parts) =~= parts_after(old(self)@, cmd, index, bytes));
            assert(parts_of(parts).dom() =~= parts@.dom());
        }
        if parts.len() == total as usize {
            assert(self@ =~= old(self)@.remove(cmd));
            Some(join(&parts))
        } else {
            self.pending.insert(cmd, parts);
            assert(self@ =~= old(self)@.insert(cmd, parts_of(parts)));
            None
        }
    }
}

// ---------------------------------------------------------------------------
// Laws on single fragments and on their order
// ---------------------------------------------------------------------------

/// A fragment that announces a total of zero or one is the whole response: its data comes out
/// as it came in, and nothing that is pending changes.
pub proof fn law_unfragmented_data_passes_through(
    pending: Pending,
    cmd: u16,
    index: u8,
    total: u8,
    data: Seq<u8>,
)
    requires
        total <= 1,
    ensures
        fed(pending, cmd, index, total, data).0 == pending,
        fed(pending, cmd, index, total, data).1 == Some(data),
{
}

/// A fragment completes its response exactly where it brings the number of different indices to
/// the announced total; the indices before it count unless it begins a new sequence.
pub proof fn law_completion_counts_indices(
    pending: Pending,
    cmd: u16,
    index: u8,
    total: u8,
    data: Seq<u8>,
)
    requires
        total > 1,
    ensures
        ({
            let earlier = if pending.contains_key(cmd) && index != 1 {
                pending[cmd].dom()
            } else {
                Set::<u8>::empty()
            };
            fed(pending, cmd, index, total, data).1 is Some <==> earlier.insert(index).len() == total
        }),
{
    let earlier = if pending.contains_key(cmd) && index != 1 {
        pending[cmd].dom()
    } else {
        Set::<u8>::empty()
    };
    assert(parts_after(pending, cmd, index, data).dom() =~= earlier.insert(index));
}

/// A fragment that completes nothing is kept under its index, beside those that are kept already;
/// the first of a sequence drops them.
pub proof fn law_incomplete_fragment_is_kept(
    pending: Pending,
    cmd: u16,
    index: u8,
    total: u8,
    data: Seq<u8>,
    other: u8,
)
    requires
        fed(pending, cmd, index, total, data).1 is None,
        other != index,
    ensures
        ({
            let after = fed(pending, cmd, index, total, data).0;
            &&& after.contains_key(cmd)
            &&& after[cmd].contains_key(index)
            &&& after[cmd][index] == data
            &&& after[cmd].contains_key(other) <==> index != 1 && pending.contains_key(cmd)
                && pending[cmd].contains_key(other)
            &&& after[cmd].contains_key(other) ==> after[cmd][other] == pending[cmd][other]
        }),
{
}

/// What was pending for a command does not matter once the first fragment of a new sequence comes.
pub proof fn law_first_fragment_forgets(
    pending: Pending,
    other: Pending,
    cmd: u16,
    total: u8,
    data: Seq<u8>,
)
    requires
        total > 1,
        pending.remove(cmd) == other.remove(cmd),
    ensures
        fed(pending, cmd, 1, total, data) == fed(other, cmd, 1, total, data),
{
    let parts = parts_after(pending, cmd, 1, data);
    assert(parts == parts_after(other, cmd, 1, data));
    assert(pending.insert(cmd, parts) =~= pending.remove(cmd).insert(cmd, parts));
    assert(other.insert(cmd, parts) =~= other.remove(cmd).insert(cmd, parts));
}

/// Indices that rise from fragment to fragment.
pub open spec fn rising(run: Seq<(u8, Seq<u8>)>) -> bool {
    forall|i: int, j: int| 0 <= i < j < run.len() ==> (#[trigger] run[i]).0 < (#[trigger] run[j]).0
}

/// The parts of a run whose indices rise, up to a bound, are its data up to there.
proof fn lemma_joined_rising(run: Seq<(u8, Seq<u8>)>, bound: nat, count: int)
    requires
        rising(run),
        bound <= 256,
        0 <= count <= run.len(),
        forall|i: int| 0 <= i < count ==> (#[trigger] run[i]).0 < bound,
        forall|i: int| count <= i < run.len() ==> (#[trigger] run[i]).0 >= bound,
    ensures
        joined_below(run_parts(run), bound) == run.take(count).map_values(
            |f: (u8, Seq<u8>)| f.1,
        ).flatten_alt(),
    decreases bound,
{
    assert forall|i: int, j: int| 0 <= i < j < run.len() implies (#[trigger] run[i]).0 != (
    #[trigger] run[j]).0 by {
        assert(run[i].0 < run[j].0);
    }
    lemma_run_parts(run);
    let data = run.take(count).map_values(|f: (u8, Seq<u8>)| f.1);
    if bound == 0 {
        assert(count == 0) by {
            if count > 0 {
                assert(run[0].0 < bound);
            }
        }
    } else {
        let index = (bound - 1) as u8;
        if count > 0 && run[count - 1].0 == index {
            assert forall|i: int| 0 <= i < count - 1 implies (#[trigger] run[i]).0 < bound - 1 by {
                assert(run[i].0 < run[count - 1].0);
            }
            lemma_joined_rising(run, (bound - 1) as nat, count - 1);
            assert(data.drop_last() =~= run.take(count - 1).map_values(|f: (u8, Seq<u8>)| f.1));
        } else {
            assert forall|i: int| 0 <= i < count implies (#[trigger] run[i]).0 < bound - 1 by {
                if i < count - 1 {
                    assert(run[i].0 < run[count - 1].0);
                }
                assert(run[count - 1].0 < bound);
            }
            assert(!run_parts(run).contains_key(index)) by {
                if run_parts(run).contains_key(index) {
                    let i = choose|i: int| 0 <= i < run.len() && (#[trigger] run[i]).0 == index;
                    if i < count {
                        assert(run[i].0 < bound - 1);
                    } else {
                        assert(run[i].0 >= bound);
                    }
                }
            }
            lemma_joined_rising(run, (bound - 1) as nat, count);
            assert(joined_below(run_parts(run), bound) =~= data.flatten_alt());
        }
    }
}

/// The same fragments in another order bring the same parts.
proof fn lemma_same_parts(run: Seq<(u8, Seq<u8>)>, other: Seq<(u8, Seq<u8>)>)
    requires
        distinct_indices(run),
        distinct_indices(other),
        forall|i: int| 0 <= i < run.len() ==> other.contains(#[trigger] run[i]),
        forall|i: int| 0 <= i < other.len() ==> run.contains(#[trigger] other[i]),
    ensures
        run_parts(run) == run_parts(other),
{
    lemma_run_parts(run);
    lemma_run_parts(other);
    assert forall|index: u8| run_parts(run).contains_key(index) implies run_parts(
        other,
    ).contains_key(index) && run_parts(run)[index] == run_parts(other)[index] by {
        let i = choose|i: int| 0 <= i < run.len() && (#[trigger] run[i]).0 == index;
        assert(other.contains(run[i]));
        let j = choose|j: int| 0 <= j < other.len() && other[j] == run[i];
        assert(run_parts(other).contains_key(other[j].0));
    }
    assert forall|index: u8| run_parts(other).contains_key(index) implies run_parts(
        run,
    ).contains_key(index) by {
        let i = choose|i: int| 0 <= i < other.len() && (#[trigger] other[i]).0 == index;
        assert(run.contains(other[i]));
        let j = choose|j: int| 0 <= j < run.len() && run[j] == other[i];
        assert(run_parts(run).contains_key(run[j].0));
    }
    assert(run_parts(run) =~= run_parts(other));
}

/// A response comes out as the data of its fragments, one after the other in the order of their
/// indices, whatever the order in which those behind the first arrive: `sorted` holds the same
/// fragments as `run` with rising indices.
pub proof fn law_reassembly_sorts_fragments(
    pending: Pending,
    cmd: u16,
    total: u8,
    run: Seq<(u8, Seq<u8>)>,
    sorted: Seq<(u8, Seq<u8>)>,
)
    requires
        total > 1,
        run.len() == total,
        run[0].0 == 1,
        distinct_indices(run),
        rising(sorted),
        forall|i: int| 0 <= i < run.len() ==> sorted.contains(#[trigger] run[i]),
        forall|i: int| 0 <= i < sorted.len() ==> run.contains(#[trigger] sorted[i]),
    ensures
        fed_run(pending, cmd, total, run).0 == pending.remove(cmd),
        fed_run(pending, cmd, total, run).1 == Some(
            sorted.map_values(|f: (u8, Seq<u8>)| f.1).flatten(),
        ),
{
    assert forall|i: int, j: int| 0 <= i < j < sorted.len() implies (#[trigger] sorted[i]).0 != (
    #[trigger] sorted[j]).0 by {
        assert(sorted[i].0 < sorted[j].0);
    }
    law_reassembly(pending, cmd, total, run);
    lemma_same_parts(run, sorted);
    lemma_joined_rising(sorted, 256, sorted.len() as int);
    assert(sorted.take(sorted.len() as int) =~= sorted);
    sorted.map_values(|f: (u8, Seq<u8>)| f.1).lemma_flatten_and_flatten_alt_are_equivalent();
}

/// The key of a command is the command, high byte first.
pub proof fn law_command_key(high: u8, low: u8)
    ensures
        key_cmd(seq![high, low]) as int == 256 * high + low,
{
}

/// What a completed response is, whatever was pending: the data of the fragment and of those that
/// were kept for its command, one after the other in the order of their indices. `sorted` holds
/// them with rising indices; those that were kept do not count where the fragment begins a new
/// sequence, and one with the same index is replaced.
pub proof fn law_completed_response_is_sorted(
    pending: Pending,
    cmd: u16,
    index: u8,
    total: u8,
    data: Seq<u8>,
    sorted: Seq<(u8, Seq<u8>)>,
)
    requires
        total > 1,
        fed(pending, cmd, index, total, data).1 is Some,
        rising(sorted),
        sorted.contains((index, data)),
        forall|i: int|
            0 <= i < sorted.len() ==> (#[trigger] sorted[i]) == (index, data) || index != 1
                && pending.contains_key(cmd) && pending[cmd].contains_key(sorted[i].0)
                && pending[cmd][sorted[i].0] == sorted[i].1,
        index != 1 && pending.contains_key(cmd) ==> forall|k: u8| #[trigger]
            pending[cmd].contains_key(k) ==> k == index || sorted.contains((k, pending[cmd][k])),
    ensures
        fed(pending, cmd, index, total, data).0 == pending.remove(cmd),
        fed(pending, cmd, index, total, data).1 == Some(
            sorted.map_values(|f: (u8, Seq<u8>)| f.1).flatten(),
        ),
{
    let parts = parts_after(pending, cmd, index, data);
    let others = run_parts(sorted);
    assert forall|i: int, j: int| 0 <= i < j < sorted.len() implies (#[trigger] sorted[i]).0 != (
    #[trigger] sorted[j]).0 by {
        assert(sorted[i].0 < sorted[j].0);
    }
    lemma_run_parts(sorted);
    let at = choose|i: int| 0 <= i < sorted.len() && sorted[i] == (index, data);
    assert forall|k: u8| parts.contains_key(k) implies others.contains_key(k) && others[k]
        == parts[k] by {
        if k == index {
            assert(sorted[at].0 == k);
        } else {
            let i = choose|i: int| 0 <= i < sorted.len() && sorted[i] == (k, pending[cmd][k]);
            assert(sorted[i].0 == k);
        }
    }
    assert forall|k: u8| others.contains_key(k) implies parts.contains_key(k) by {
        let i = choose|i: int| 0 <= i < sorted.len() && (#[trigger] sorted[i]).0 == k;
        assert(sorted[i] == (index, data) || pending[cmd].contains_key(sorted[i].0));
    }
    assert(parts =~= others);
    lemma_joined_rising(sorted, 256, sorted.len() as int);
    assert(sorted.take(sorted.len() as int) =~= sorted);
    sorted.map_values(|f: (u8, Seq<u8>)| f.1).lemma_flatten_and_flatten_alt_are_equivalent();
}

} // verus!
