//! A control layer over a host's `vmctl` virtual-machine manager.
//!
//! The crate parses the manager's whitespace-padded status listing into typed
//! records, resolves user-assigned VM names to manager-assigned numeric ids,
//! builds the command lines of the lifecycle operations, and classifies each
//! operation's outcome from the literal success phrases the manager prints on
//! its diagnostic stream. Process execution itself stays outside this crate:
//! every function here is a total, verified computation on plain values.

pub mod errors;
pub mod status;
pub mod text;

use crate::errors::{VmctlControllerError, VmctlControllerErrorCause};
use crate::status::{
    body_of, line_well_formed, lines_of, parse_result_matches, record_matches, Status,
};
use crate::text::{contains_seq, decimal_repr, str_contains, str_eq, u64_to_string};
use vstd::prelude::*;

verus! {

/// Some record of the snapshot carries this VM name.
pub open spec fn has_vm(records: Seq<Status>, name: Seq<char>) -> bool {
    exists|i: int| 0 <= i < records.len() && (#[trigger] records[i]).name@ == name
}

/// `id` is the identifier of the first record carrying this VM name.
pub open spec fn resolves_to(records: Seq<Status>, name: Seq<char>, id: u64) -> bool {
    exists|i: int|
        {
            &&& 0 <= i < records.len()
            &&& (#[trigger] records[i]).name@ == name
            &&& records[i].id == id
            &&& (forall|j: int| 0 <= j < i ==> (#[trigger] records[j]).name@ != name)
        }
}

/// Resolves a VM name against a snapshot: a linear scan that returns the id
/// of the first record whose name equals `name` exactly, case-sensitively,
/// and fails with `VmNotFound` when no record carries the name, however many
/// other VMs the snapshot holds.
pub fn vm_id(records: &Vec<Status>, name: &str) -> (r: Result<u64, VmctlControllerError>)
    ensures
        r is Ok <==> has_vm(records@, name@),
        r is Ok ==> resolves_to(records@, name@, r->Ok_0),
        r is Err ==> r->Err_0.cause == VmctlControllerErrorCause::VmNotFound,
{
    let mut k: usize = 0;
    while k < records.len()
        invariant
            0 <= k <= records@.len(),
            forall|j: int| 0 <= j < k ==> (#[trigger] records@[j]).name@ != name@,
        decreases records@.len() - k,
    {
        if str_eq(records[k].name.as_str(), name) {
            proof {
                assert(resolves_to(records@, name@, records@[k as int].id));
            }
            return Ok(records[k].id);
        }
        k = k + 1;
    }
    Err(VmctlControllerError { cause: VmctlControllerErrorCause::VmNotFound })
}

/// Classifies a start command's diagnostic text: success exactly when it
/// contains the manager's literal success phrase, whatever the process's own
/// exit status was.
pub fn classify_start_output(diag: &str) -> (r: Result<(), VmctlControllerError>)
    ensures
        r is Ok <==> contains_seq(diag@, "vmctl: started vm"@),
        r is Err ==> r->Err_0.cause == VmctlControllerErrorCause::Start,
{
    if str_contains(diag, "vmctl: started vm") {
        Ok(())
    } else {
        Err(VmctlControllerError { cause: VmctlControllerErrorCause::Start })
    }
}

/// Classifies a stop command's diagnostic text by its literal success phrase.
pub fn classify_stop_output(diag: &str) -> (r: Result<(), VmctlControllerError>)
    ensures
        r is Ok <==> contains_seq(diag@, "stopping vm: requested to shutdown vm"@),
        r is Err ==> r->Err_0.cause == VmctlControllerErrorCause::Stop,
{
    if str_contains(diag, "stopping vm: requested to shutdown vm") {
        Ok(())
    } else {
        Err(VmctlControllerError { cause: VmctlControllerErrorCause::Stop })
    }
}

/// Classifies a pause command's diagnostic text. A missing phrase reports the
/// stop-failure category, which pause shares.
pub fn classify_pause_output(diag: &str) -> (r: Result<(), VmctlControllerError>)
    ensures
        r is Ok <==> contains_seq(diag@, "vmctl: paused vm"@),
        r is Err ==> r->Err_0.cause == VmctlControllerErrorCause::Stop,
{
    if str_contains(diag, "vmctl: paused vm") {
        Ok(())
    } else {
        Err(VmctlControllerError { cause: VmctlControllerErrorCause::Stop })
    }
}

/// Classifies an unpause command's diagnostic text. A missing phrase reports
/// the stop-failure category, which unpause shares.
pub fn classify_unpause_output(diag: &str) -> (r: Result<(), VmctlControllerError>)
    ensures
        r is Ok <==> contains_seq(diag@, "vmctl: unpaused vm"@),
        r is Err ==> r->Err_0.cause == VmctlControllerErrorCause::Stop,
{
    if str_contains(diag, "vmctl: unpaused vm") {
        Ok(())
    } else {
        Err(VmctlControllerError { cause: VmctlControllerErrorCause::Stop })
    }
}

/// The command line that starts a VM; the start verb addresses VMs by name.
pub fn start_command(name: &str) -> (r: String)
    ensures
        r@ == "vmctl start "@ + name@,
{
    let mut c = String::from_str("vmctl start ");
    c.append(name);
    c
}

/// The command line that stops a VM; the stop verb addresses VMs by id.
pub fn stop_command(id: u64) -> (r: String)
    ensures
        exists|d: Seq<char>| decimal_repr(id as int, d) && r@ == "vmctl stop "@ + d,
{
    let digits = u64_to_string(id);
    let c = String::from_str("vmctl stop ").concat(digits.as_str());
    proof {
        assert(decimal_repr(id as int, digits@) && c@ == "vmctl stop "@ + digits@);
    }
    c
}

/// The command line that pauses a VM, addressed by id.
pub fn pause_command(id: u64) -> (r: String)
    ensures
        exists|d: Seq<char>| decimal_repr(id as int, d) && r@ == "vmctl pause "@ + d,
{
    let digits = u64_to_string(id);
    let c = String::from_str("vmctl pause ").concat(digits.as_str());
    proof {
        assert(decimal_repr(id as int, digits@) && c@ == "vmctl pause "@ + digits@);
    }
    c
}

/// The command line that unpauses a VM, addressed by id.
pub fn unpause_command(id: u64) -> (r: String)
    ensures
        exists|d: Seq<char>| decimal_repr(id as int, d) && r@ == "vmctl unpause "@ + d,
{
    let digits = u64_to_string(id);
    let c = String::from_str("vmctl unpause ").concat(digits.as_str());
    proof {
        assert(decimal_repr(id as int, digits@) && c@ == "vmctl unpause "@ + digits@);
    }
    c
}

/// A listing whose non-empty lines are all well-formed parses to one
/// successful record per line, in input order, with every record holding its
/// line's tokens.
pub proof fn lemma_listing_all_ok(
    results: Seq<Result<Status, VmctlControllerError>>,
    input: Seq<char>,
)
    requires
        results.len() == lines_of(input).len(),
        forall|i: int| 0 <= i < results.len() ==> parse_result_matches(
            #[trigger] results[i],
            lines_of(input)[i],
        ),
        forall|i: int| 0 <= i < lines_of(input).len() ==> line_well_formed(
            #[trigger] lines_of(input)[i],
        ),
    ensures
        forall|i: int| 0 <= i < results.len() ==> (#[trigger] results[i]) is Ok && record_matches(
            results[i]->Ok_0,
            lines_of(input)[i],
        ),
{
}

/// Two snapshots taken from the same captured listing agree in content,
/// record for record: equal ids, vcpu counts and text fields, whatever
/// objects hold them.
pub proof fn lemma_snapshot_deterministic(a: Seq<Status>, b: Seq<Status>, raw: Seq<char>)
    requires
        a.len() == lines_of(body_of(raw)).len(),
        b.len() == lines_of(body_of(raw)).len(),
        forall|i: int| 0 <= i < a.len() ==> record_matches(
            #[trigger] a[i],
            lines_of(body_of(raw))[i],
        ),
        forall|i: int| 0 <= i < b.len() ==> record_matches(
            #[trigger] b[i],
            lines_of(body_of(raw))[i],
        ),
    ensures
        a.len() == b.len(),
        forall|i: int|
            0 <= i < a.len() ==> {
                &&& (#[trigger] a[i]).id == b[i].id
                &&& a[i].vcpus == b[i].vcpus
                &&& a[i].pid@ == b[i].pid@
                &&& a[i].max_mem@ == b[i].max_mem@
                &&& a[i].cur_mem@ == b[i].cur_mem@
                &&& a[i].tty@ == b[i].tty@
                &&& a[i].owner@ == b[i].owner@
                &&& a[i].name@ == b[i].name@
            },
{
}

} // verus!
