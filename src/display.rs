use vstd::prelude::*;
use crate::codec::{entries_view, TotpEntry};
use crate::error::VaultError;
use crate::totp::{code_of, remaining_seconds, totp_code, STEP};

verus! {

/// Every entry's secret has a code.
pub open spec fn all_codes_exist(es: Seq<(Seq<char>, Seq<char>)>, time: u64) -> bool {
    forall|i: int| 0 <= i < es.len() ==> (#[trigger] code_of(es[i].1, time)) is Some
}

/// The code of each entry at `time`, in list order.
pub fn codes_at(entries: &Vec<TotpEntry>, time: u64) -> (r: Result<Vec<String>, VaultError>)
    ensures
        r is Ok <==> all_codes_exist(entries_view(entries@), time),
        r matches Ok(v) ==> v@.len() == entries@.len() && forall|i: int|
            0 <= i < v@.len() ==> Some(#[trigger] v@[i]@) == code_of(entries@[i].secret@, time),
        r is Err ==> r->Err_0 == VaultError::InvalidSecret,
{
    let mut out: Vec<String> = Vec::new();
    let mut i: usize = 0;
    while i < entries.len()
        invariant
            i <= entries.len(),
            out@.len() == i,
            forall|k: int| 0 <= k < i ==> Some(#[trigger] out@[k]@) == code_of(entries@[k].secret@, time),
        decreases entries.len() - i,
    {
        match totp_code(entries[i].secret.as_str(), time) {
            Ok(c) => out.push(c),
            Err(e) => {
                proof {
                    let ev = entries_view(entries@);
                    assert(ev[i as int].1 == entries@[i as int].secret@);
                    assert(!all_codes_exist(ev, time));
                }
                return Err(e);
            },
        }
        i = i + 1;
    }
    proof {
        let ev = entries_view(entries@);
        assert forall|k: int| 0 <= k < ev.len() implies (#[trigger] code_of(ev[k].1, time)) is Some by {
            assert(ev[k].1 == entries@[k].secret@);
            assert(Some(out@[k]@) == code_of(entries@[k].secret@, time));
        }
    }
    Ok(out)
}

/// What the live display shows in one second.
pub struct Frame {
    /// The codes to draw anew, in list order, where a window starts.
    pub codes: Option<Vec<String>>,
    /// The countdown to the end of the window.
    pub remaining: u64,
    /// The window ends with this second: the next frame draws the codes again.
    pub window_ends: bool,
}

/// Decides one second of the live display: at the start of a window the
/// codes of all entries, always the countdown, and whether the window ends.
/// A vault with no entries has nothing to display.
pub fn next_frame(entries: &Vec<TotpEntry>, window_starts: bool, time: u64) -> (r: Result<Frame, VaultError>)
    ensures
        entries@.len() == 0 ==> r is Err && r->Err_0 == VaultError::EmptyVault,
        entries@.len() > 0 && !window_starts ==> r is Ok && r->Ok_0.codes is None,
        entries@.len() > 0 && window_starts ==> (r is Ok <==> all_codes_exist(entries_view(entries@), time)),
        r matches Ok(f) ==> {
            &&& f.remaining == STEP - time % STEP
            &&& f.window_ends == (f.remaining == 1)
            &&& (f.codes is Some <==> window_starts)
            &&& f.codes matches Some(v) ==> v@.len() == entries@.len() && forall|i: int|
                0 <= i < v@.len() ==> Some(#[trigger] v@[i]@) == code_of(entries@[i].secret@, time)
        },
        r is Err ==> r->Err_0 == VaultError::EmptyVault || (window_starts && r->Err_0
            == VaultError::InvalidSecret),
        r is Err && r->Err_0 == VaultError::EmptyVault ==> entries@.len() == 0,
{
    if entries.len() == 0 {
        return Err(VaultError::EmptyVault);
    }
    let codes = if window_starts {
        Some(codes_at(entries, time)?)
    } else {
        None
    };
    let remaining = remaining_seconds(time);
    Ok(Frame { codes, remaining, window_ends: remaining == 1 })
}

} // verus!
