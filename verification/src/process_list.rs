//! The list of running processes as the UI shows it: in the order of their
//! lowercase names, one process for each name.

use crate::processes::{lowercase, to_lowercase, RunningProcess};
use crate::text::{
    chars_of, lemma_lex_irreflexive, lemma_lex_total, lemma_lex_transitive, lex_lt, place,
    Placement,
};
use vstd::prelude::*;

verus! {

/// The name by which a process is sorted and told apart: its lowercase form.
pub open spec fn sort_key(process: RunningProcess) -> Seq<char> {
    lowercase(process.name@)
}

/// Each process of `list` stands before the next in the order of their
/// lowercase names, so that no name occurs twice.
pub open spec fn sorted_by_name(list: Seq<RunningProcess>) -> bool {
    forall|i: int, j: int|
        0 <= i < j < list.len() ==> lex_lt(sort_key(#[trigger] list[i]), sort_key(#[trigger] list[j]))
}

/// Whether `process` is the first of `all` that has its name.
pub open spec fn first_of_its_name(all: Seq<RunningProcess>, process: RunningProcess) -> bool {
    exists|j: int|
        0 <= j < all.len() && #[trigger] all[j] == process && forall|k: int|
            0 <= k < j ==> sort_key(#[trigger] all[k]) != sort_key(process)
}

/// Whether some process of `list` has the name of `process`.
pub open spec fn name_listed(list: Seq<RunningProcess>, process: RunningProcess) -> bool {
    exists|i: int| 0 <= i < list.len() && sort_key(#[trigger] list[i]) == sort_key(process)
}

/// The keys are the sort keys of the processes, one for one.
spec fn keyed(keys: Seq<Vec<char>>, list: Seq<RunningProcess>) -> bool {
    &&& keys.len() == list.len()
    &&& forall|i: int| 0 <= i < list.len() ==> (#[trigger] keys[i])@ == sort_key(list[i])
}

/// Where `key` belongs among sorted keys: the first position whose key does
/// not stand before it, and whether that key is the same.
fn find_place(keys: &Vec<Vec<char>>, key: &Vec<char>) -> (r: (usize, bool))
    ensures
        r.0 <= keys@.len(),
        forall|i: int| 0 <= i < r.0 ==> lex_lt((#[trigger] keys@[i])@, key@),
        r.0 < keys@.len() ==> !lex_lt(keys@[r.0 as int]@, key@),
        r.1 <==> r.0 < keys@.len() && keys@[r.0 as int]@ == key@,
{
    let mut pos: usize = 0;
    while pos < keys.len()
        invariant
            pos <= keys@.len(),
            forall|i: int| 0 <= i < pos ==> lex_lt((#[trigger] keys@[i])@, key@),
        decreases keys@.len() - pos,
    {
        match place(keys[pos].as_slice(), key.as_slice()) {
            Placement::Before => {
                pos += 1;
            },
            Placement::Same => {
                proof {
                    lemma_lex_irreflexive(key@);
                }
                return (pos, true);
            },
            Placement::After => {
                return (pos, false);
            },
        }
    }
    (pos, false)
}

/// A process put where its name belongs keeps a sorted list sorted.
proof fn lemma_insert_sorted(list: Seq<RunningProcess>, process: RunningProcess, pos: int)
    requires
        sorted_by_name(list),
        0 <= pos <= list.len(),
        forall|i: int| 0 <= i < pos ==> lex_lt(sort_key(#[trigger] list[i]), sort_key(process)),
        pos < list.len() ==> !lex_lt(sort_key(list[pos]), sort_key(process)) && sort_key(list[pos])
            != sort_key(process),
    ensures
        sorted_by_name(list.insert(pos, process)),
        !name_listed(list, process),
{
    let key = sort_key(process);
    let new = list.insert(pos, process);
    assert forall|i: int| pos <= i < list.len() implies lex_lt(key, sort_key(#[trigger] list[i])) by {
        lemma_lex_total(sort_key(list[pos]), key);
        if i > pos {
            assert(lex_lt(sort_key(list[pos]), sort_key(list[i])));
            lemma_lex_transitive(key, sort_key(list[pos]), sort_key(list[i]));
        }
    }
    lemma_lex_irreflexive(key);
    assert forall|i: int| 0 <= i < list.len() implies sort_key(#[trigger] list[i]) != key by {
        if i < pos {
            assert(lex_lt(sort_key(list[i]), key));
        } else {
            assert(lex_lt(key, sort_key(list[i])));
        }
    }
    assert forall|i: int, j: int| 0 <= i < j < new.len() implies lex_lt(
        sort_key(#[trigger] new[i]),
        sort_key(#[trigger] new[j]),
    ) by {
        let a = if i < pos { i } else { i - 1 };
        let b = if j < pos { j } else { j - 1 };
        if i != pos && j != pos {
            assert(new[i] == list[a] && new[j] == list[b]);
            assert(lex_lt(sort_key(list[a]), sort_key(list[b])));
        } else if i == pos {
            assert(new[j] == list[b]);
            assert(lex_lt(key, sort_key(list[b])));
        } else {
            assert(new[i] == list[a]);
            assert(lex_lt(sort_key(list[a]), key));
        }
    }
}

/// Puts `process` where its name belongs, unless a process of that name is
/// there already.
fn insert_unique(out: &mut Vec<RunningProcess>, keys: &mut Vec<Vec<char>>, process: &RunningProcess)
    requires
        keyed(old(keys)@, old(out)@),
        sorted_by_name(old(out)@),
    ensures
        keyed(final(keys)@, final(out)@),
        sorted_by_name(final(out)@),
        name_listed(old(out)@, *process) ==> final(out)@ == old(out)@,
        !name_listed(old(out)@, *process) ==> exists|pos: int|
            0 <= pos <= old(out)@.len() && final(out)@ == #[trigger] old(out)@.insert(pos, *process),
{
    let lower = to_lowercase(process.name.as_str());
    let key = chars_of(lower.as_str());
    let (pos, same) = find_place(keys, &key);
    if same {
        assert(sort_key(out@[pos as int]) == sort_key(*process));
    } else {
        let copy = process.clone();
        proof {
            assert forall|i: int| 0 <= i < pos implies lex_lt(
                sort_key(#[trigger] out@[i]),
                sort_key(copy),
            ) by {
                assert(lex_lt(keys@[i]@, key@));
            }
            if pos < out@.len() {
                assert(keys@[pos as int]@ == sort_key(out@[pos as int]));
            }
            lemma_insert_sorted(out@, copy, pos as int);
        }
        let ghost old_out = out@;
        let ghost old_keys = keys@;
        out.insert(pos, copy);
        keys.insert(pos, key);
        proof {
            assert forall|i: int| 0 <= i < out@.len() implies (#[trigger] keys@[i])@ == sort_key(
                out@[i],
            ) by {
                if i < pos {
                    assert(keys@[i] == old_keys[i] && out@[i] == old_out[i]);
                } else if i > pos {
                    assert(keys@[i] == old_keys[i - 1] && out@[i] == old_out[i - 1]);
                }
            }
            assert(out@ == old_out.insert(pos as int, *process));
        }
    }
}

/// One more process seen: what was first of its name stays so.
proof fn lemma_first_stays(all: Seq<RunningProcess>, seen: int, process: RunningProcess)
    requires
        0 <= seen < all.len(),
        first_of_its_name(all.subrange(0, seen), process),
    ensures
        first_of_its_name(all.subrange(0, seen + 1), process),
{
    let before = all.subrange(0, seen);
    let after = all.subrange(0, seen + 1);
    let j = choose|j: int|
        0 <= j < before.len() && #[trigger] before[j] == process && forall|k: int|
            0 <= k < j ==> sort_key(#[trigger] before[k]) != sort_key(process);
    assert(after[j] == before[j]);
    assert forall|k: int| 0 <= k < j implies sort_key(#[trigger] after[k]) != sort_key(process) by {
        assert(after[k] == before[k]);
    }
}

/// A process whose name was not listed among those seen is the first of its
/// name.
proof fn lemma_first_new(all: Seq<RunningProcess>, seen: int, listed: Seq<RunningProcess>)
    requires
        0 <= seen < all.len(),
        forall|j: int| 0 <= j < seen ==> name_listed(listed, #[trigger] all[j]),
        !name_listed(listed, all[seen]),
    ensures
        first_of_its_name(all.subrange(0, seen + 1), all[seen]),
{
    let after = all.subrange(0, seen + 1);
    assert(after[seen] == all[seen]);
    assert forall|k: int| 0 <= k < seen implies sort_key(#[trigger] after[k]) != sort_key(
        all[seen],
    ) by {
        assert(after[k] == all[k]);
        assert(name_listed(listed, all[k]));
    }
}

/// A name that was listed stays listed when a process is put into the list.
proof fn lemma_listed_stays(
    list: Seq<RunningProcess>,
    pos: int,
    added: RunningProcess,
    process: RunningProcess,
)
    requires
        0 <= pos <= list.len(),
        name_listed(list, process),
    ensures
        name_listed(list.insert(pos, added), process),
{
    let i = choose|i: int| 0 <= i < list.len() && sort_key(#[trigger] list[i]) == sort_key(process);
    let moved = if i < pos { i } else { i + 1 };
    assert(list.insert(pos, added)[moved] == list[i]);
}

/// The processes of `processes` in the order of their lowercase names, one
/// for each name: the first that has it.
pub fn sort_by_name(processes: &[RunningProcess]) -> (sorted: Vec<RunningProcess>)
    ensures
        sorted_by_name(sorted@),
        forall|i: int|
            0 <= i < sorted@.len() ==> first_of_its_name(processes@, #[trigger] sorted@[i]),
        forall|j: int|
            0 <= j < processes@.len() ==> name_listed(sorted@, #[trigger] processes@[j]),
{
    let mut out: Vec<RunningProcess> = Vec::new();
    let mut keys: Vec<Vec<char>> = Vec::new();
    let mut p: usize = 0;
    while p < processes.len()
        invariant
            p <= processes@.len(),
            keyed(keys@, out@),
            sorted_by_name(out@),
            forall|i: int|
                0 <= i < out@.len() ==> first_of_its_name(
                    processes@.subrange(0, p as int),
                    #[trigger] out@[i],
                ),
            forall|j: int| 0 <= j < p ==> name_listed(out@, #[trigger] processes@[j]),
        decreases processes@.len() - p,
    {
        let ghost old_out = out@;
        insert_unique(&mut out, &mut keys, &processes[p]);
        proof {
            let process = processes@[p as int];
            if name_listed(old_out, process) {
                assert forall|i: int| 0 <= i < out@.len() implies first_of_its_name(
                    processes@.subrange(0, p + 1),
                    #[trigger] out@[i],
                ) by {
                    lemma_first_stays(processes@, p as int, out@[i]);
                }
            } else {
                let pos = choose|pos: int|
                    0 <= pos <= old_out.len() && out@ == #[trigger] old_out.insert(pos, process);
                assert forall|i: int| 0 <= i < out@.len() implies first_of_its_name(
                    processes@.subrange(0, p + 1),
                    #[trigger] out@[i],
                ) by {
                    if i < pos {
                        assert(out@[i] == old_out[i]);
                        lemma_first_stays(processes@, p as int, old_out[i]);
                    } else if i > pos {
                        assert(out@[i] == old_out[i - 1]);
                        lemma_first_stays(processes@, p as int, old_out[i - 1]);
                    } else {
                        lemma_first_new(processes@, p as int, old_out);
                    }
                }
                assert forall|j: int| 0 <= j <= p implies name_listed(
                    out@,
                    #[trigger] processes@[j],
                ) by {
                    if j < p {
                        lemma_listed_stays(old_out, pos, process, processes@[j]);
                    } else {
                        assert(out@[pos] == process);
                    }
                }
            }
        }
        p += 1;
    }
    assert(processes@.subrange(0, p as int) =~= processes@);
    out
}

} // verus!
