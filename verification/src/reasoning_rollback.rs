//! How a written entry of the thinking store is taken back, and how a write that failed is made good.
use crate::crypto::sha256;
use crate::reasoning_state::{rollback_refusal, FoundEntry};
use vstd::prelude::*;

verus! {

/// One change of the store's files.
#[derive(Debug)]
pub enum Change {
    /// The file gets these bytes, whatever it held.
    Write { name: String, bytes: Vec<u8> },
    Remove { name: String },
    /// The file gets these bytes; it is a fault if it is there already.
    PutBack { name: String, bytes: Vec<u8> },
}

#[verifier::ext_equal]
pub enum ChangeV {
    Write(Seq<char>, Seq<u8>),
    Remove(Seq<char>),
    PutBack(Seq<char>, Seq<u8>),
}

impl View for Change {
    type V = ChangeV;

    open spec fn view(&self) -> ChangeV {
        match *self {
            Change::Write { name, bytes } => ChangeV::Write(name@, bytes@),
            Change::Remove { name } => ChangeV::Remove(name@),
            Change::PutBack { name, bytes } => ChangeV::PutBack(name@, bytes@),
        }
    }
}

pub open spec fn changes_view(changes: Seq<Change>) -> Seq<ChangeV> {
    changes.map_values(|change: Change| change@)
}

/// Files by their names.
pub open spec fn files_view(files: Seq<(String, Vec<u8>)>) -> Seq<(Seq<char>, Seq<u8>)> {
    files.map_values(|file: (String, Vec<u8>)| (file.0@, file.1@))
}

/// The files after one change, where it can be made.
pub open spec fn changed(files: Map<Seq<char>, Seq<u8>>, change: ChangeV) -> Option<Map<Seq<char>, Seq<u8>>> {
    match change {
        ChangeV::Write(name, bytes) => Some(files.insert(name, bytes)),
        ChangeV::Remove(name) => Some(files.remove(name)),
        ChangeV::PutBack(name, bytes) => if files.dom().contains(name) {
            None
        } else {
            Some(files.insert(name, bytes))
        },
    }
}

/// The files after changes one after another, where all can be made.
pub open spec fn applied(files: Map<Seq<char>, Seq<u8>>, changes: Seq<ChangeV>) -> Option<Map<Seq<char>, Seq<u8>>>
    decreases changes.len(),
{
    if changes.len() == 0 {
        Some(files)
    } else {
        match changed(files, changes[0]) {
            Some(next) => applied(next, changes.drop_first()),
            None => None,
        }
    }
}

/// The changes that put files back.
pub open spec fn put_back(evicted: Seq<(Seq<char>, Seq<u8>)>) -> Seq<ChangeV> {
    evicted.map_values(|file: (Seq<char>, Seq<u8>)| ChangeV::PutBack(file.0, file.1))
}

/// Plans how the files that made room for an entry come back when it could not be written.
pub fn plan_recovery(evicted: Vec<(String, Vec<u8>)>) -> (changes: Vec<Change>)
    ensures
        changes_view(changes@) == put_back(files_view(evicted@)),
{
    let mut changes: Vec<Change> = Vec::new();
    add_put_back(&mut changes, evicted);
    assert(changes_view(changes@) =~= put_back(files_view(evicted@)));
    changes
}

fn add_put_back(changes: &mut Vec<Change>, evicted: Vec<(String, Vec<u8>)>)
    ensures
        changes_view(final(changes)@) == changes_view(old(changes)@) + put_back(files_view(evicted@)),
{
    let ghost all = put_back(files_view(evicted@));
    let ghost before = changes_view(changes@);
    let mut i: usize = 0;
    while i < evicted.len()
        invariant
            i <= evicted@.len(),
            all == put_back(files_view(evicted@)),
            changes_view(changes@) == before + all.take(i as int),
        decreases evicted@.len() - i,
    {
        let ghost so_far = changes_view(changes@);
        let change = Change::PutBack { name: evicted[i].0.as_str().to_owned(), bytes: copy_bytes(&evicted[i].1) };
        let ghost meant = change@;
        changes.push(change);
        assert(changes_view(changes@) =~= so_far.push(meant));
        assert(all[i as int] == meant);
        assert(all.take(i + 1) =~= all.take(i as int).push(meant));
        assert(before + all.take(i + 1) =~= (before + all.take(i as int)).push(meant));
        i = i + 1;
    }
    assert(all.take(i as int) =~= all);
}

fn copy_bytes(bytes: &Vec<u8>) -> (copy: Vec<u8>)
    ensures
        copy@ == bytes@,
{
    let mut copy: Vec<u8> = Vec::new();
    copy.extend_from_slice(bytes.as_slice());
    assert(copy@ =~= bytes@);
    copy
}

/// How an entry is taken back: the changes to make, and why it is refused after they were made.
#[derive(Debug)]
pub struct RollbackPlan {
    pub changes: Vec<Change>,
    pub refusal: Option<String>,
}

/// The changes that take an entry back. What was there before comes back first, then what made room
/// for it; where the entry is not the one that was written, it is left alone.
pub open spec fn rollback_changes(
    intact: bool,
    target: Seq<char>,
    previous: Option<Seq<u8>>,
    evicted: Seq<(Seq<char>, Seq<u8>)>,
) -> Seq<ChangeV> {
    if intact {
        seq![
            match previous {
                Some(bytes) => ChangeV::Write(target, bytes),
                None => ChangeV::Remove(target),
            },
        ] + put_back(evicted)
    } else {
        put_back(evicted)
    }
}

/// Whether what was found is the entry that was written.
pub open spec fn is_intact(found: FoundEntry, written_digest: Seq<u8>) -> bool {
    found matches FoundEntry::File(bytes) && sha256(bytes@) == written_digest
}

/// Plans how an entry is taken back, from what was found in its place, what was there before it and what
/// made room for it.
pub fn plan_rollback(
    found: &FoundEntry,
    written_digest: &Vec<u8>,
    target: &str,
    previous: Option<Vec<u8>>,
    evicted: Vec<(String, Vec<u8>)>,
) -> (plan: RollbackPlan)
    ensures
        changes_view(plan.changes@) == rollback_changes(
            is_intact(*found, written_digest@),
            target@,
            match previous {
                Some(bytes) => Some(bytes@),
                None => None,
            },
            files_view(evicted@),
        ),
        plan.refusal is None <==> is_intact(*found, written_digest@),
        plan.refusal matches Some(reason) ==> reason@ == (match *found {
            FoundEntry::File(_) => "thinking continuity committed entry changed before rollback"@,
            FoundEntry::Nothing => "thinking continuity committed entry is missing"@,
            FoundEntry::Fault(e) => e@,
        }),
{
    let refusal = rollback_refusal(found, written_digest);
    let mut changes: Vec<Change> = Vec::new();
    let ghost back = put_back(files_view(evicted@));
    if refusal.is_none() {
        let first = match previous {
            Some(bytes) => Change::Write { name: target.to_owned(), bytes },
            None => Change::Remove { name: target.to_owned() },
        };
        let ghost meant = first@;
        changes.push(first);
        assert(changes_view(changes@) =~= seq![meant]);
    } else {
        assert(changes_view(changes@) =~= Seq::empty());
        assert(Seq::<ChangeV>::empty() + back =~= back);
    }
    add_put_back(&mut changes, evicted);
    RollbackPlan { changes, refusal }
}

/// The files without those that made room.
pub open spec fn without_files(files: Map<Seq<char>, Seq<u8>>, evicted: Seq<(Seq<char>, Seq<u8>)>) -> Map<
    Seq<char>,
    Seq<u8>,
>
    decreases evicted.len(),
{
    if evicted.len() == 0 {
        files
    } else {
        without_files(files, evicted.drop_first()).remove(evicted[0].0)
    }
}

/// Whether these are files of the store, each once.
pub open spec fn are_files(files: Map<Seq<char>, Seq<u8>>, evicted: Seq<(Seq<char>, Seq<u8>)>) -> bool {
    &&& forall|i: int|
        0 <= i < evicted.len() ==> files.dom().contains((#[trigger] evicted[i]).0) && files[evicted[i].0] == evicted[i].1
    &&& forall|i: int, j: int| 0 <= i < j < evicted.len() ==> (#[trigger] evicted[i]).0 != (#[trigger] evicted[j]).0
}

proof fn others_stay(files: Map<Seq<char>, Seq<u8>>, evicted: Seq<(Seq<char>, Seq<u8>)>, name: Seq<char>)
    requires
        forall|i: int| 0 <= i < evicted.len() ==> (#[trigger] evicted[i]).0 != name,
    ensures
        without_files(files, evicted).dom().contains(name) == files.dom().contains(name),
        files.dom().contains(name) ==> without_files(files, evicted)[name] == files[name],
    decreases evicted.len(),
{
    if evicted.len() > 0 {
        let rest = evicted.drop_first();
        assert forall|i: int| 0 <= i < rest.len() implies (#[trigger] rest[i]).0 != name by {
            assert(rest[i] == evicted[i + 1]);
        }
        others_stay(files, rest, name);
        assert(evicted[0].0 != name);
    }
}

/// A write that failed leaves the store as it was: what made room for it comes back.
pub proof fn recoveries_give_the_old_files_back(
    files: Map<Seq<char>, Seq<u8>>,
    evicted: Seq<(Seq<char>, Seq<u8>)>,
)
    requires
        are_files(files, evicted),
    ensures
        applied(without_files(files, evicted), put_back(evicted)) == Some(files),
    decreases evicted.len(),
{
    if evicted.len() > 0 {
        let rest = evicted.drop_first();
        let (name, bytes) = evicted[0];
        assert forall|i: int| 0 <= i < rest.len() implies files.dom().contains((#[trigger] rest[i]).0) && files[rest[i].0]
            == rest[i].1 && rest[i].0 != name by {
            assert(rest[i] == evicted[i + 1]);
        }
        assert forall|i: int, j: int| 0 <= i < j < rest.len() implies (#[trigger] rest[i]).0 != (#[trigger] rest[j]).0 by {
            assert(rest[i] == evicted[i + 1] && rest[j] == evicted[j + 1]);
        }
        recoveries_give_the_old_files_back(files, rest);
        others_stay(files, rest, name);
        assert(files.dom().contains(name) && files[name] == bytes);
        let bare = without_files(files, evicted);
        assert(bare.insert(name, bytes) =~= without_files(files, rest));
        assert(put_back(evicted).drop_first() =~= put_back(rest));
        assert(put_back(evicted)[0] == ChangeV::PutBack(name, bytes));
    }
}

/// Taking a written entry back undoes the write: the store holds what it held before, the entry's
/// predecessor and what made room for it among it.
pub proof fn rollbacks_give_the_old_files_back(
    files: Map<Seq<char>, Seq<u8>>,
    target: Seq<char>,
    written: Seq<u8>,
    evicted: Seq<(Seq<char>, Seq<u8>)>,
)
    requires
        are_files(files, evicted),
        forall|i: int| 0 <= i < evicted.len() ==> (#[trigger] evicted[i]).0 != target,
    ensures
        applied(
            without_files(files, evicted).insert(target, written),
            rollback_changes(
                true,
                target,
                if files.dom().contains(target) {
                    Some(files[target])
                } else {
                    None
                },
                evicted,
            ),
        ) == Some(files),
{
    let previous = if files.dom().contains(target) {
        Some(files[target])
    } else {
        None
    };
    let bare = without_files(files, evicted);
    let after = bare.insert(target, written);
    let changes = rollback_changes(true, target, previous, evicted);
    others_stay(files, evicted, target);
    assert(changes.drop_first() =~= put_back(evicted));
    match previous {
        Some(bytes) => {
            assert(after.insert(target, bytes) =~= bare);
        },
        None => {
            assert(after.remove(target) =~= bare);
        },
    }
    recoveries_give_the_old_files_back(files, evicted);
}

} // verus!
