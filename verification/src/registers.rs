use vstd::prelude::*;
use crate::errors::Error;

verus! {

/// ASCII 's'.
pub const LOWER_S: u8 = 115;

/// ASCII 'b'.
pub const LOWER_B: u8 = 98;

/// ASCII 'p'.
pub const LOWER_P: u8 = 112;

/// One entry of a host register snapshot: the register's name as the host
/// reports it, and its value at the instant of the query.
pub struct RegEntry {
    pub name: Vec<u8>,
    pub value: u64,
}

/// The name ends in "sp", the conventional stack-pointer suffix
/// ("esp", "rsp", "sp", ...).
pub open spec fn is_sp_name(name: Seq<u8>) -> bool {
    name.len() >= 2 && name[name.len() - 2] == LOWER_S && name[name.len() - 1] == LOWER_P
}

/// The name ends in "bp", the conventional base-pointer suffix
/// ("ebp", "rbp", "bp", ...).
pub open spec fn is_bp_name(name: Seq<u8>) -> bool {
    name.len() >= 2 && name[name.len() - 2] == LOWER_B && name[name.len() - 1] == LOWER_P
}

/// Value of the last snapshot entry whose name carries the stack-pointer
/// suffix. The last match wins, mirroring a scan that overwrites earlier
/// matches as it goes.
pub open spec fn last_sp(entries: Seq<RegEntry>) -> Option<u64>
    decreases entries.len(),
{
    if entries.len() == 0 {
        None
    } else if is_sp_name(entries.last().name@) {
        Some(entries.last().value)
    } else {
        last_sp(entries.drop_last())
    }
}

/// Value of the last snapshot entry whose name carries the base-pointer
/// suffix.
pub open spec fn last_bp(entries: Seq<RegEntry>) -> Option<u64>
    decreases entries.len(),
{
    if entries.len() == 0 {
        None
    } else if is_bp_name(entries.last().name@) {
        Some(entries.last().value)
    } else {
        last_bp(entries.drop_last())
    }
}

proof fn lemma_last_sp_step(entries: Seq<RegEntry>, i: int)
    requires
        0 <= i < entries.len(),
    ensures
        last_sp(entries.take(i + 1)) == (if is_sp_name(entries[i].name@) {
            Some(entries[i].value)
        } else {
            last_sp(entries.take(i))
        }),
{
    assert(entries.take(i + 1).last() == entries[i]);
    assert(entries.take(i + 1).drop_last() =~= entries.take(i));
}

proof fn lemma_last_bp_step(entries: Seq<RegEntry>, i: int)
    requires
        0 <= i < entries.len(),
    ensures
        last_bp(entries.take(i + 1)) == (if is_bp_name(entries[i].name@) {
            Some(entries[i].value)
        } else {
            last_bp(entries.take(i))
        }),
{
    assert(entries.take(i + 1).last() == entries[i]);
    assert(entries.take(i + 1).drop_last() =~= entries.take(i));
}

/// The name ends in the stack-pointer suffix "sp".
fn name_is_sp(name: &Vec<u8>) -> (r: bool)
    ensures
        r == is_sp_name(name@),
{
    let n = name.len();
    n >= 2 && name[n - 2] == LOWER_S && name[n - 1] == LOWER_P
}

/// The name ends in the base-pointer suffix "bp".
fn name_is_bp(name: &Vec<u8>) -> (r: bool)
    ensures
        r == is_bp_name(name@),
{
    let n = name.len();
    n >= 2 && name[n - 2] == LOWER_B && name[n - 1] == LOWER_P
}

/// Scan a register snapshot for the stack pointer and the base pointer.
///
/// Every entry is visited in snapshot order; of several names with the same
/// suffix the last one encountered wins. A name that matches the
/// stack-pointer suffix is never also read as a base pointer, since the
/// suffixes differ in their first letter. The stack pointer is reported
/// missing before the base pointer is.
pub fn resolve_stack_pointers(entries: &Vec<RegEntry>) -> (r: Result<(u64, u64), Error>)
    ensures
        last_sp(entries@) is None ==> r == Err::<(u64, u64), Error>(Error::MissingStackPointer),
        last_sp(entries@) is Some && last_bp(entries@) is None ==> r == Err::<(u64, u64), Error>(
            Error::MissingBasePointer,
        ),
        last_sp(entries@) is Some && last_bp(entries@) is Some ==> r == Ok::<(u64, u64), Error>(
            (last_sp(entries@).unwrap(), last_bp(entries@).unwrap()),
        ),
{
    let n = entries.len();
    let mut sp: Option<u64> = None;
    let mut bp: Option<u64> = None;
    let mut i: usize = 0;
    while i < n
        invariant
            i <= n,
            n == entries@.len(),
            sp == last_sp(entries@.take(i as int)),
            bp == last_bp(entries@.take(i as int)),
        decreases n - i,
    {
        proof {
            lemma_last_sp_step(entries@, i as int);
            lemma_last_bp_step(entries@, i as int);
        }
        let entry = &entries[i];
        if name_is_sp(&entry.name) {
            sp = Some(entry.value);
        } else if name_is_bp(&entry.name) {
            bp = Some(entry.value);
        }
        i = i + 1;
    }
    proof {
        assert(entries@.take(n as int) =~= entries@);
    }
    match (sp, bp) {
        (Some(s), Some(b)) => Ok((s, b)),
        (None, _) => Err(Error::MissingStackPointer),
        (Some(_), None) => Err(Error::MissingBasePointer),
    }
}

} // verus!
