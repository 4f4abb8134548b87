//! How the log takes on, changes and gives up its keyring.

use vstd::prelude::*;

use crate::concurrent_system::{
    ConcurrentWalSystem, FlushRequest, KeyringTurn, SystemView,
};
use crate::error::{Error, ErrorView};
use crate::keyring::{build_initial_keyring, CipherHandle, WalKeyring};
use crate::laws::draining::{
    flushes_everything, lemma_request_takes_everything, lemma_writes_are_settled,
    writes_are_settled,
};

verus! {

broadcast use crate::power::lemma_wrap_near;

/// A keyring that is made for a cipher holds that cipher, at the version that
/// was given, or at the first one.
pub proof fn lemma_keyring_holds_its_cipher(
    cipher: CipherHandle,
    version: u32,
    first: WalKeyring,
    versioned: WalKeyring,
)
    requires
        call_ensures(WalKeyring::single, (cipher,), first),
        call_ensures(WalKeyring::single_versioned, (cipher, version), versioned),
    ensures
        first.cipher == cipher,
        first.version == 1,
        versioned.cipher == cipher,
        versioned.version == version,
{
}

/// The keyring that a log starts with holds the configured cipher, at the
/// configured version or else at the first one; without a cipher there is none.
pub proof fn lemma_initial_keyring(
    cipher: Option<CipherHandle>,
    version: Option<u32>,
    keyring: Option<WalKeyring>,
)
    requires
        call_ensures(build_initial_keyring, (cipher, version), keyring),
    ensures
        keyring is Some <==> cipher is Some,
        keyring matches Some(k) ==> Some(k.cipher) == cipher,
        keyring matches Some(k) ==> k.version == if version is Some {
            version->0
        } else {
            1
        },
{
}

/// What the log says of its keyring is what it holds.
pub proof fn lemma_keyring_is_reported(
    system: &ConcurrentWalSystem,
    keyring: Option<WalKeyring>,
    encrypted: bool,
)
    requires
        call_ensures(ConcurrentWalSystem::wal_keyring, (system,), keyring),
        call_ensures(ConcurrentWalSystem::is_encrypted, (system,), encrypted),
    ensures
        keyring == system@.keyring,
        encrypted <==> keyring is Some,
{
}

/// While a roll is under way no other begins, and nothing changes.
pub proof fn lemma_rolls_wait_for_each_other(
    system: &mut ConcurrentWalSystem,
    keyring: WalKeyring,
    install: KeyringTurn,
    removing: &mut ConcurrentWalSystem,
    uninstall: KeyringTurn,
    rotating: &mut ConcurrentWalSystem,
    rotate: KeyringTurn,
)
    requires
        old(system)@.roll is Some,
        *old(removing) == *old(system),
        *old(rotating) == *old(system),
        call_ensures(ConcurrentWalSystem::install_wal_keyring, (system, keyring), install),
        call_ensures(ConcurrentWalSystem::uninstall_wal_keyring, (removing,), uninstall),
        call_ensures(
            ConcurrentWalSystem::seal_active_segment_for_rotation,
            (rotating,),
            rotate,
        ),
    ensures
        install is Busy,
        uninstall is Busy,
        rotate is Busy,
        final(system)@ == old(system)@,
        final(removing)@ == old(system)@,
        final(rotating)@ == old(system)@,
{
}

/// An encrypted log takes no other keyring by installing it, and a plaintext
/// log has none to give up: both are refused, with an error of their own, and
/// nothing changes.
pub proof fn lemma_impossible_changes_are_refused(
    system: &mut ConcurrentWalSystem,
    keyring: WalKeyring,
    install: KeyringTurn,
    removing: &mut ConcurrentWalSystem,
    uninstall: KeyringTurn,
)
    requires
        old(system)@.roll is None,
        old(system)@.keyring is Some,
        old(removing)@.roll is None,
        old(removing)@.keyring is None,
        call_ensures(ConcurrentWalSystem::install_wal_keyring, (system, keyring), install),
        call_ensures(ConcurrentWalSystem::uninstall_wal_keyring, (removing,), uninstall),
    ensures
        install matches KeyringTurn::Refused(error) && error@
            == ErrorView::KeyringAlreadyInstalled(
            "a WAL keyring is already installed; runtime install only supports the plaintext → encrypted (None → Some) transition (key rotation is a separate operation)"@,
        ),
        uninstall matches KeyringTurn::Refused(error) && error@ == ErrorView::KeyringNotInstalled(
            "no WAL keyring is installed; runtime uninstall only supports the encrypted → plaintext (Some → None) transition (a plaintext WAL is already un-encrypted)"@,
        ),
        final(system)@ == old(system)@,
        final(removing)@ == old(removing)@,
{
}

/// Whether `after` is `before` with all that was buffered on its way into the
/// old segment, and a roll under way.
pub open spec fn roll_begins(before: SystemView, after: SystemView, turn: KeyringTurn) -> bool {
    &&& turn matches KeyringTurn::Seal(request)
    &&& flushes_everything(before.wal, after.wal, request, true)
    &&& after.roll is Some
    &&& after == (SystemView { wal: after.wal, roll: after.roll, ..before })
}

/// A change that is possible begins with a synced flush of all that is
/// buffered, and leaves the keyring as it is for the time being.
pub proof fn lemma_roll_begins_with_a_flush(
    system: &mut ConcurrentWalSystem,
    keyring: WalKeyring,
    install: KeyringTurn,
    removing: &mut ConcurrentWalSystem,
    uninstall: KeyringTurn,
    rotating: &mut ConcurrentWalSystem,
    rotate: KeyringTurn,
)
    requires
        old(system).wf(),
        old(system)@.roll is None,
        old(system)@.keyring is None,
        old(removing).wf(),
        old(removing)@.roll is None,
        old(removing)@.keyring is Some,
        old(rotating).wf(),
        old(rotating)@.roll is None,
        call_ensures(ConcurrentWalSystem::install_wal_keyring, (system, keyring), install),
        call_ensures(ConcurrentWalSystem::uninstall_wal_keyring, (removing,), uninstall),
        call_ensures(
            ConcurrentWalSystem::seal_active_segment_for_rotation,
            (rotating,),
            rotate,
        ),
    ensures
        roll_begins(old(system)@, final(system)@, install),
        roll_begins(old(removing)@, final(removing)@, uninstall),
        roll_begins(old(rotating)@, final(rotating)@, rotate),
{
    old(system).lemma_epochs();
    old(removing).lemma_epochs();
    old(rotating).lemma_epochs();
    if let KeyringTurn::Seal(request) = install {
        lemma_request_takes_everything(old(system)@.wal, final(system)@.wal, request, true);
    }
    if let KeyringTurn::Seal(request) = uninstall {
        lemma_request_takes_everything(old(removing)@.wal, final(removing)@.wal, request, true);
    }
    if let KeyringTurn::Seal(request) = rotate {
        lemma_request_takes_everything(old(rotating)@.wal, final(rotating)@.wal, request, true);
    }
}

/// A keyring that is installed is the one that the log holds from then on:
/// before the change is carried out it holds none, afterwards it holds exactly
/// that keyring, and still does when the roll is over.
pub proof fn lemma_installed_keyring_is_the_one_given(
    system: &mut ConcurrentWalSystem,
    keyring: WalKeyring,
    turn: KeyringTurn,
    flushing: &mut ConcurrentWalSystem,
    written: Result<(), Error>,
    result: Result<(), Error>,
    advancing: &mut ConcurrentWalSystem,
    advanced: bool,
    finishing: &mut ConcurrentWalSystem,
)
    requires
        old(system)@.roll is None,
        old(system)@.keyring is None,
        call_ensures(ConcurrentWalSystem::install_wal_keyring, (system, keyring), turn),
        turn matches KeyringTurn::Seal(None) ==> *old(advancing) == *final(system),
        turn matches KeyringTurn::Seal(Some(request)) ==> {
            &&& *old(flushing) == *final(system)
            &&& written is Ok
            &&& call_ensures(
                ConcurrentWalSystem::finish_seal_flush,
                (flushing, request, written),
                result,
            )
            &&& *old(advancing) == *final(flushing)
        },
        call_ensures(ConcurrentWalSystem::advance_keyring, (advancing,), advanced),
        *old(finishing) == *final(advancing),
        call_ensures(ConcurrentWalSystem::finish_keyring_change, (finishing,), ()),
    ensures
        final(system)@.keyring is None,
        old(advancing)@.keyring is None,
        advanced,
        final(advancing)@.keyring == Some(keyring),
        final(finishing)@.keyring == Some(keyring),
        final(finishing)@.roll is None,
        final(advancing)@ == (SystemView {
            keyring: Some(keyring),
            roll: final(advancing)@.roll,
            ..old(advancing)@
        }),
        final(finishing)@ == (SystemView { roll: None, ..final(advancing)@ }),
{
}

/// A keyring that is removed is gone once the change is carried out, and stays
/// so when the roll is over; until then the log holds it.
pub proof fn lemma_removed_keyring_is_gone(
    system: &mut ConcurrentWalSystem,
    turn: KeyringTurn,
    flushing: &mut ConcurrentWalSystem,
    written: Result<(), Error>,
    result: Result<(), Error>,
    advancing: &mut ConcurrentWalSystem,
    advanced: bool,
    finishing: &mut ConcurrentWalSystem,
)
    requires
        old(system)@.roll is None,
        old(system)@.keyring is Some,
        call_ensures(ConcurrentWalSystem::uninstall_wal_keyring, (system,), turn),
        turn matches KeyringTurn::Seal(None) ==> *old(advancing) == *final(system),
        turn matches KeyringTurn::Seal(Some(request)) ==> {
            &&& *old(flushing) == *final(system)
            &&& written is Ok
            &&& call_ensures(
                ConcurrentWalSystem::finish_seal_flush,
                (flushing, request, written),
                result,
            )
            &&& *old(advancing) == *final(flushing)
        },
        call_ensures(ConcurrentWalSystem::advance_keyring, (advancing,), advanced),
        *old(finishing) == *final(advancing),
        call_ensures(ConcurrentWalSystem::finish_keyring_change, (finishing,), ()),
    ensures
        final(system)@.keyring == old(system)@.keyring,
        old(advancing)@.keyring == old(system)@.keyring,
        advanced,
        final(advancing)@.keyring is None,
        final(finishing)@.keyring is None,
        final(finishing)@.roll is None,
        final(advancing)@ == (SystemView {
            keyring: None,
            roll: final(advancing)@.roll,
            ..old(advancing)@
        }),
{
}

/// A rotation of an encrypted log ends with the next keyring, and stays there
/// when the roll is over; until then the log holds the old one. A rotation
/// without a next keyring leaves the old one.
pub proof fn lemma_rotated_keyring_is_the_next_one(
    system: &mut ConcurrentWalSystem,
    turn: KeyringTurn,
    flushing: &mut ConcurrentWalSystem,
    written: Result<(), Error>,
    result: Result<(), Error>,
    advancing: &mut ConcurrentWalSystem,
    next: WalKeyring,
    advanced: bool,
    finishing: &mut ConcurrentWalSystem,
    staying: &mut ConcurrentWalSystem,
    stayed: bool,
)
    requires
        old(system)@.roll is None,
        old(system)@.keyring is Some,
        call_ensures(ConcurrentWalSystem::seal_active_segment_for_rotation, (system,), turn),
        turn matches KeyringTurn::Seal(None) ==> *old(advancing) == *final(system),
        turn matches KeyringTurn::Seal(Some(request)) ==> {
            &&& *old(flushing) == *final(system)
            &&& written is Ok
            &&& call_ensures(
                ConcurrentWalSystem::finish_seal_flush,
                (flushing, request, written),
                result,
            )
            &&& *old(advancing) == *final(flushing)
        },
        call_ensures(ConcurrentWalSystem::advance_keyring_to, (advancing, next), advanced),
        *old(finishing) == *final(advancing),
        call_ensures(ConcurrentWalSystem::finish_keyring_change, (finishing,), ()),
        *old(staying) == *old(advancing),
        call_ensures(ConcurrentWalSystem::advance_keyring, (staying,), stayed),
    ensures
        old(advancing)@.keyring == old(system)@.keyring,
        advanced,
        final(advancing)@.keyring == Some(next),
        final(finishing)@.keyring == Some(next),
        final(finishing)@.roll is None,
        final(advancing)@ == (SystemView {
            keyring: Some(next),
            roll: final(advancing)@.roll,
            ..old(advancing)@
        }),
        stayed,
        final(staying)@.keyring == old(system)@.keyring,
{
}

/// A change is carried out once, and not before its flush has succeeded.
pub proof fn lemma_change_happens_once_and_after_the_flush(
    system: &mut ConcurrentWalSystem,
    keyring: WalKeyring,
    request: FlushRequest,
    early: &mut ConcurrentWalSystem,
    too_early: bool,
    advancing: &mut ConcurrentWalSystem,
    advanced: bool,
    again: &mut ConcurrentWalSystem,
    twice: bool,
    rotating: &mut ConcurrentWalSystem,
    next: WalKeyring,
    rotated: bool,
)
    requires
        call_ensures(
            ConcurrentWalSystem::install_wal_keyring,
            (system, keyring),
            KeyringTurn::Seal(Some(request)),
        ),
        *old(early) == *final(system),
        call_ensures(ConcurrentWalSystem::advance_keyring, (early,), too_early),
        call_ensures(ConcurrentWalSystem::advance_keyring, (advancing,), advanced),
        *old(again) == *final(advancing),
        call_ensures(ConcurrentWalSystem::advance_keyring, (again,), twice),
        *old(rotating) == *final(advancing),
        call_ensures(ConcurrentWalSystem::advance_keyring_to, (rotating, next), rotated),
    ensures
        !too_early,
        final(early)@ == old(early)@,
        !twice,
        final(again)@ == final(advancing)@,
        !rotated,
        final(rotating)@ == final(advancing)@,
        !advanced ==> final(advancing)@ == old(advancing)@,
{
}

/// Without a roll nothing is carried out, and a plaintext log is not rotated.
pub proof fn lemma_nothing_changes_without_a_roll(
    system: &mut ConcurrentWalSystem,
    advanced: bool,
    rotating: &mut ConcurrentWalSystem,
    next: WalKeyring,
    rotated: bool,
)
    requires
        old(system)@.roll is None,
        call_ensures(ConcurrentWalSystem::advance_keyring, (system,), advanced),
        old(rotating)@.roll is None || old(rotating)@.keyring is None,
        call_ensures(ConcurrentWalSystem::advance_keyring_to, (rotating, next), rotated),
    ensures
        !advanced,
        final(system)@ == old(system)@,
        !rotated,
        final(rotating)@ == old(rotating)@,
{
}

/// If the flush before a change fails, the change is off: the error is handed
/// on, what was to be written is lost, the keyring stays, no attempt to go on
/// changes anything, and another roll may begin.
pub proof fn lemma_failed_flush_calls_the_change_off(
    system: &mut ConcurrentWalSystem,
    request: FlushRequest,
    error: Error,
    result: Result<(), Error>,
    advancing: &mut ConcurrentWalSystem,
    advanced: bool,
)
    requires
        call_ensures(
            ConcurrentWalSystem::finish_seal_flush,
            (system, request, Err::<(), Error>(error)),
            result,
        ),
        *old(advancing) == *final(system),
        call_ensures(ConcurrentWalSystem::advance_keyring, (advancing,), advanced),
    ensures
        result matches Err(told) && told == error,
        final(system)@.roll is None,
        final(system)@.keyring == old(system)@.keyring,
        writes_are_settled(
            (SystemView { roll: None, ..old(system)@ }),
            final(system)@,
            request.entries@,
            false,
        ),
        !advanced,
        final(advancing)@ == final(system)@,
{
    lemma_writes_are_settled(
        SystemView { roll: None, ..old(system)@ },
        request.entries@,
        false,
    );
}

/// If it succeeds, what was written is reported as any other flush is, the
/// roll goes on, and the keyring stays for the time being.
pub proof fn lemma_flush_before_a_change_is_reported(
    system: &mut ConcurrentWalSystem,
    request: FlushRequest,
    result: Result<(), Error>,
)
    requires
        call_ensures(
            ConcurrentWalSystem::finish_seal_flush,
            (system, request, Ok::<(), Error>(())),
            result,
        ),
    ensures
        result is Ok,
        final(system)@.keyring == old(system)@.keyring,
        final(system)@.roll is Some <==> old(system)@.roll is Some,
        old(system)@.roll matches Some(roll) ==> (final(system)@.roll matches Some(later)
            && later.change == roll.change),
        writes_are_settled(
            (SystemView { roll: final(system)@.roll, ..old(system)@ }),
            final(system)@,
            request.entries@,
            true,
        ),
{
    lemma_writes_are_settled(
        SystemView { roll: final(system)@.roll, ..old(system)@ },
        request.entries@,
        true,
    );
}

} // verus!
