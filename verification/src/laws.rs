//! What holds of the store and of the protocol, whatever the commands are.

use crate::bytes::be_bytes;
use crate::codec::{authentic, entry_bytes, entry_of};
use crate::password::{ArrayString, PasswordItem};
use crate::protocol::{
    bare,
    command_step,
    consent_step,
    export_record,
    export_start,
    export_step,
    field_at,
    fits,
    import_record,
    put,
    requested_item,
    wanted,
    ActionView,
    Pending,
    Phase,
    Prompt,
    Status,
    Want,
    INS_EXPORT_NEXT,
    INS_IMPORT_NEXT,
    INS_SET_PASSWORD,
};
use crate::store::{lemma_position, names_unique, position};
use vstd::prelude::*;

verus! {

/// Putting an entry into a store keeps the store within its capacity.
pub proof fn lemma_put_bounded(store: Seq<PasswordItem>, item: PasswordItem)
    requires
        store.len() <= 128,
    ensures
        put(store, item).len() <= 128,
        put(store, item).len() == if position(store, item.name@) is Some || store.len() == 128 {
            store.len()
        } else {
            store.len() + 1
        },
{
    lemma_position(store, item.name@);
}

/// Putting an entry into a store whose names are distinct leaves the names
/// distinct.
pub proof fn lemma_put_keeps_names_unique(store: Seq<PasswordItem>, item: PasswordItem)
    requires
        names_unique(store),
    ensures
        names_unique(put(store, item)),
{
    lemma_position(store, item.name@);
    let after = put(store, item);
    match position(store, item.name@) {
        Some(at) => {
            let rest = store.remove(at);
            assert forall|i: int, j: int|
                0 <= i < after.len() && 0 <= j < after.len() && i != j implies after[i].name@
                != after[j].name@ by {
                let from_i = if i < at {
                    i
                } else {
                    i + 1
                };
                let from_j = if j < at {
                    j
                } else {
                    j + 1
                };
                if i < rest.len() && j < rest.len() {
                    assert(after[i] == store[from_i] && after[j] == store[from_j]);
                } else if i < rest.len() {
                    assert(after[i] == store[from_i] && after[j] == item);
                    assert(store[from_i].name@ != store[at].name@);
                } else {
                    assert(after[j] == store[from_j] && after[i] == item);
                    assert(store[from_j].name@ != store[at].name@);
                }
            }
        },
        None => {},
    }
}

/// Replacing: where an entry has the name already and the names are
/// distinct, putting `item` leaves the length as it was and leaves exactly
/// one entry of that name, which is `item` with its password.
pub proof fn lemma_put_replaces(store: Seq<PasswordItem>, item: PasswordItem)
    requires
        names_unique(store),
        position(store, item.name@) is Some,
    ensures
        fits(store, item),
        put(store, item).len() == store.len(),
        put(store, item).last() == item,
        forall|i: int|
            0 <= i < store.len() ==> (#[trigger] put(store, item)[i].name@ == item.name@ <==> i
                == store.len() - 1),
{
    lemma_position(store, item.name@);
    lemma_put_keeps_names_unique(store, item);
    let after = put(store, item);
    assert(after.last() == item);
    assert forall|i: int| 0 <= i < store.len() implies (#[trigger] after[i].name@ == item.name@
        <==> i == store.len() - 1) by {
        if i != store.len() - 1 {
            assert(after[i].name@ != after[store.len() - 1].name@);
        }
    }
}

/// Setting a password after consent is replacing: the accepted command
/// leaves exactly what [`put`] leaves, and reports success where there was
/// room. Declined, it leaves the store as it was.
pub proof fn lemma_set_password_puts(store: Seq<PasswordItem>, item: PasswordItem, accepted: bool)
    ensures
        consent_step(Phase::Confirming(Pending::SetPassword(item)), store, accepted).store == if accepted {
            put(store, item)
        } else {
            store
        },
        consent_step(Phase::Confirming(Pending::SetPassword(item)), store, accepted).action == bare(
            if accepted && fits(store, item) {
                Status::Success
            } else {
                Status::Failure
            },
        ),
        consent_step(Phase::Confirming(Pending::SetPassword(item)), store, accepted).phase
            == Phase::Idle,
{
}

/// Setting a password under a name that an entry has already, from the
/// command to the owner's consent: the owner is asked whether to update,
/// and afterwards the store is as long as before, its names are distinct,
/// and exactly one entry has the name, the last one, with the password that
/// the command brought.
pub proof fn lemma_update_replaces_password(
    store: Seq<PasswordItem>,
    key: Seq<u8>,
    apdu: Seq<u8>,
    nonce: Seq<u8>,
    draws: Seq<u32>,
)
    requires
        apdu.len() == 260,
        apdu[1] == INS_SET_PASSWORD,
        apdu[2] == 0,
        names_unique(store),
        position(store, field_at(apdu, 5)) is Some,
    ensures
        ({
            let asked = command_step(Phase::Idle, store, key, apdu, nonce, draws);
            let done = consent_step(asked.phase, asked.store, true);
            &&& asked.action == ActionView::Ask(
                Prompt::UpdatePassword(ArrayString::of(field_at(apdu, 5))),
            )
            &&& asked.store == store
            &&& done.action == bare(Status::Success)
            &&& done.phase == Phase::Idle
            &&& done.store.len() == store.len()
            &&& names_unique(done.store)
            &&& forall|i: int|
                0 <= i < done.store.len() ==> (#[trigger] done.store[i].name@ == field_at(apdu, 5)
                    <==> i == done.store.len() - 1)
            &&& done.store.last().pass@ == field_at(apdu, 37)
        }),
{
    ArrayString::<32>::lemma_of_bytes(field_at(apdu, 5));
    ArrayString::<32>::lemma_of_bytes(field_at(apdu, 37));
    let item = requested_item(apdu, draws);
    lemma_put_replaces(store, item);
    lemma_put_keeps_names_unique(store, item);
}

/// An entry read back from its own plain record is the entry.
pub proof fn lemma_plain_round_trip(item: PasswordItem)
    ensures
        entry_of(entry_bytes(item)) == item,
{
    assert(entry_bytes(item).subrange(0, 32) =~= item.name@);
    assert(entry_bytes(item).subrange(32, 64) =~= item.pass@);
    item.name.lemma_of_view();
    item.pass.lemma_of_view();
}

/// Every 64 bytes are the plain record of an entry, of the one that
/// [`entry_of`] gives: reading a plain record and writing the entry again
/// gives the record back.
pub proof fn lemma_plain_record_of_entry(bytes: Seq<u8>)
    requires
        bytes.len() == 64,
    ensures
        entry_bytes(entry_of(bytes)) == bytes,
{
    ArrayString::<32>::lemma_of_bytes(bytes.subrange(0, 32));
    ArrayString::<32>::lemma_of_bytes(bytes.subrange(32, 64));
    assert(entry_bytes(entry_of(bytes)) =~= bytes);
}

/// Declining a prompt changes nothing: the store stays as it is, the
/// command is dropped, and the reply reports failure.
pub proof fn lemma_declined_changes_nothing(pending: Pending, store: Seq<PasswordItem>)
    ensures
        consent_step(Phase::Confirming(pending), store, false).store == store,
        consent_step(Phase::Confirming(pending), store, false).phase == Phase::Idle,
        consent_step(Phase::Confirming(pending), store, false).action == bare(Status::Failure),
{
}

/// A command changes the store only as a round of an import. Every other
/// change waits for the owner's consent.
pub proof fn lemma_commands_outside_imports_keep_store(
    phase: Phase,
    store: Seq<PasswordItem>,
    key: Seq<u8>,
    apdu: Seq<u8>,
    nonce: Seq<u8>,
    draws: Seq<u32>,
)
    requires
        !(phase is Importing),
    ensures
        command_step(phase, store, key, apdu, nonce, draws).store == store,
{
}

/// A round does not look at what it does not want from the random source:
/// with another nonce, where it wants no nonce, and with other draws, where
/// it wants no draws, it ends in the same phase, leaves the same store and
/// does the same.
pub proof fn lemma_unwanted_entropy_is_ignored(
    phase: Phase,
    store: Seq<PasswordItem>,
    key: Seq<u8>,
    apdu: Seq<u8>,
    nonce: Seq<u8>,
    draws: Seq<u32>,
    other_nonce: Seq<u8>,
    other_draws: Seq<u32>,
)
    ensures
        wanted(phase, apdu) != Want::Nonce ==> command_step(phase, store, key, apdu, nonce, draws)
            == command_step(phase, store, key, apdu, other_nonce, draws),
        wanted(phase, apdu) != Want::Picks ==> command_step(phase, store, key, apdu, nonce, draws)
            == command_step(phase, store, key, apdu, nonce, other_draws),
{
}

/// No command makes the store outgrow its capacity, or leaves an export
/// without an entry to send or an import without a record to expect.
pub proof fn lemma_command_step_wf(
    phase: Phase,
    store: Seq<PasswordItem>,
    key: Seq<u8>,
    apdu: Seq<u8>,
    nonce: Seq<u8>,
    draws: Seq<u32>,
)
    requires
        phase.wf(),
        store.len() <= 128,
    ensures
        command_step(phase, store, key, apdu, nonce, draws).phase.wf(),
        command_step(phase, store, key, apdu, nonce, draws).store.len() <= 128,
{
    match phase {
        Phase::Importing { remaining, encrypted } => {
            if let Some(item) = import_record(apdu, encrypted, key) {
                lemma_put_bounded(store, item);
            }
        },
        _ => {},
    }
}

/// No answer makes the store outgrow its capacity, or leaves an export
/// without an entry to send or an import without a record to expect.
pub proof fn lemma_consent_step_wf(phase: Phase, store: Seq<PasswordItem>, accepted: bool)
    requires
        phase.wf(),
        store.len() <= 128,
    ensures
        consent_step(phase, store, accepted).phase.wf(),
        consent_step(phase, store, accepted).store.len() <= 128,
{
    match phase {
        Phase::Confirming(Pending::SetPassword(item)) => {
            lemma_put_bounded(store, item);
        },
        Phase::Confirming(Pending::RemovePassword(name)) => {
            lemma_position(store, name@);
        },
        _ => {},
    }
}

/// Removing an entry from a store whose names are distinct leaves the names
/// distinct.
pub proof fn lemma_remove_keeps_names_unique(store: Seq<PasswordItem>, at: int)
    requires
        names_unique(store),
        0 <= at < store.len(),
    ensures
        names_unique(store.remove(at)),
{
    let after = store.remove(at);
    assert forall|i: int, j: int|
        0 <= i < after.len() && 0 <= j < after.len() && i != j implies after[i].name@
        != after[j].name@ by {
        let from_i = if i < at {
            i
        } else {
            i + 1
        };
        let from_j = if j < at {
            j
        } else {
            j + 1
        };
        assert(after[i] == store[from_i] && after[j] == store[from_j]);
    }
}

/// Names that are distinct stay distinct through every command.
pub proof fn lemma_command_step_keeps_names_unique(
    phase: Phase,
    store: Seq<PasswordItem>,
    key: Seq<u8>,
    apdu: Seq<u8>,
    nonce: Seq<u8>,
    draws: Seq<u32>,
)
    requires
        names_unique(store),
    ensures
        names_unique(command_step(phase, store, key, apdu, nonce, draws).store),
{
    match phase {
        Phase::Importing { remaining, encrypted } => {
            if let Some(item) = import_record(apdu, encrypted, key) {
                lemma_put_keeps_names_unique(store, item);
            }
        },
        _ => {},
    }
}

/// Names that are distinct stay distinct through every answer.
pub proof fn lemma_consent_step_keeps_names_unique(
    phase: Phase,
    store: Seq<PasswordItem>,
    accepted: bool,
)
    requires
        names_unique(store),
    ensures
        names_unique(consent_step(phase, store, accepted).store),
{
    match phase {
        Phase::Confirming(Pending::SetPassword(item)) => {
            lemma_put_keeps_names_unique(store, item);
        },
        Phase::Confirming(Pending::RemovePassword(name)) => {
            lemma_position(store, name@);
            if let Some(at) = position(store, name@) {
                lemma_remove_keeps_names_unique(store, at);
            }
        },
        _ => {},
    }
}

/// Whoever is refused for a bad instruction finds the device idle
/// afterwards: an unexpected command ends the sequence it fell into.
pub proof fn lemma_bad_instruction_ends_sequence(
    phase: Phase,
    store: Seq<PasswordItem>,
    key: Seq<u8>,
    apdu: Seq<u8>,
    nonce: Seq<u8>,
    draws: Seq<u32>,
)
    ensures
        command_step(phase, store, key, apdu, nonce, draws).action == bare(Status::BadInstruction)
            ==> command_step(phase, store, key, apdu, nonce, draws).phase == Phase::Idle
            && command_step(phase, store, key, apdu, nonce, draws).store == store,
        (phase is Exporting && apdu[1] != INS_EXPORT_NEXT) || (phase is Importing && apdu[1]
            != INS_IMPORT_NEXT) || phase is Confirming ==> command_step(
            phase,
            store,
            key,
            apdu,
            nonce,
            draws,
        ).action == bare(Status::BadInstruction),
{
    match phase {
        Phase::Exporting { snapshot, cursor, encrypted } => {
            if apdu[1] == INS_EXPORT_NEXT {
                let sent = export_record(snapshot[cursor as int], encrypted, key, nonce);
                assert(export_step(store, snapshot, cursor, encrypted, key, nonce).action
                    == ActionView::Reply { status: Status::Success, payload: sent });
            }
        },
        _ => {},
    }
}

/// An export does not look at the store and does not touch it: whatever the
/// store holds when a round of the export runs, the round sends the same
/// record, leaves the device in the same phase, and leaves the store as it
/// found it.
pub proof fn lemma_export_ignores_store(
    phase: Phase,
    store: Seq<PasswordItem>,
    other: Seq<PasswordItem>,
    key: Seq<u8>,
    apdu: Seq<u8>,
    nonce: Seq<u8>,
    draws: Seq<u32>,
)
    requires
        phase is Exporting,
    ensures
        command_step(phase, store, key, apdu, nonce, draws).store == store,
        command_step(phase, other, key, apdu, nonce, draws).store == other,
        command_step(phase, store, key, apdu, nonce, draws).phase == command_step(
            phase,
            other,
            key,
            apdu,
            nonce,
            draws,
        ).phase,
        command_step(phase, store, key, apdu, nonce, draws).action == command_step(
            phase,
            other,
            key,
            apdu,
            nonce,
            draws,
        ).action,
{
}

/// The phase after the first `rounds` rounds of an export, round `i` being
/// run with nonce `nonces[i]` while the store holds `stores[i]`.
pub open spec fn export_phase_after(
    start: Phase,
    key: Seq<u8>,
    stores: Seq<Seq<PasswordItem>>,
    nonces: Seq<Seq<u8>>,
    rounds: nat,
) -> Phase
    decreases rounds,
{
    if rounds == 0 {
        start
    } else {
        let before = export_phase_after(start, key, stores, nonces, (rounds - 1) as nat);
        command_step(
            before,
            stores[rounds - 1],
            key,
            export_next_apdu(),
            nonces[rounds - 1],
            Seq::empty(),
        ).phase
    }
}

/// What round `round` of an export does, counted from 0.
pub open spec fn export_action_in(
    start: Phase,
    key: Seq<u8>,
    stores: Seq<Seq<PasswordItem>>,
    nonces: Seq<Seq<u8>>,
    round: nat,
) -> ActionView {
    command_step(
        export_phase_after(start, key, stores, nonces, round),
        stores[round as int],
        key,
        export_next_apdu(),
        nonces[round as int],
        Seq::empty(),
    ).action
}

/// A command buffer that asks for the next record of an export.
pub open spec fn export_next_apdu() -> Seq<u8> {
    Seq::new(260, |i: int| if i == 1 { INS_EXPORT_NEXT } else { 0u8 })
}

/// An export over `n` entries announces `n` and then sends exactly `n`
/// records, the entries as they were at the start and in their order,
/// whatever the store holds in the meantime; after the last one the device
/// is idle.
pub proof fn lemma_export_sends_snapshot(
    store: Seq<PasswordItem>,
    encrypted: bool,
    key: Seq<u8>,
    stores: Seq<Seq<PasswordItem>>,
    nonces: Seq<Seq<u8>>,
    round: nat,
)
    requires
        0 < store.len() <= 128,
        round < store.len(),
    ensures
        export_start(store, encrypted).action == (ActionView::Reply {
            status: Status::Success,
            payload: be_bytes(store.len() as u32),
        }),
        export_phase_after(export_start(store, encrypted).phase, key, stores, nonces, round)
            == (Phase::Exporting { snapshot: store, cursor: round, encrypted }),
        export_action_in(export_start(store, encrypted).phase, key, stores, nonces, round)
            == (ActionView::Reply {
            status: Status::Success,
            payload: export_record(store[round as int], encrypted, key, nonces[round as int]),
        }),
        round + 1 == store.len() ==> export_phase_after(
            export_start(store, encrypted).phase,
            key,
            stores,
            nonces,
            round + 1,
        ) == Phase::Idle,
    decreases round,
{
    let start = export_start(store, encrypted).phase;
    if round > 0 {
        lemma_export_sends_snapshot(store, encrypted, key, stores, nonces, (round - 1) as nat);
        assert(export_phase_after(start, key, stores, nonces, round) == command_step(
            export_phase_after(start, key, stores, nonces, (round - 1) as nat),
            stores[round - 1],
            key,
            export_next_apdu(),
            nonces[round - 1],
            Seq::empty(),
        ).phase);
    }
    assert(export_phase_after(start, key, stores, nonces, round + 1) == command_step(
        export_phase_after(start, key, stores, nonces, round),
        stores[round as int],
        key,
        export_next_apdu(),
        nonces[round as int],
        Seq::empty(),
    ).phase);
}

/// A record that is not authentic ends the import: the store keeps what
/// the rounds before it put there and gets nothing from this one, the
/// reply reports failure, and the device is idle, as before any sequence.
pub proof fn lemma_import_abort_keeps_store(
    remaining: u32,
    store: Seq<PasswordItem>,
    key: Seq<u8>,
    apdu: Seq<u8>,
    nonce: Seq<u8>,
    draws: Seq<u32>,
)
    requires
        apdu[1] == INS_IMPORT_NEXT,
        !authentic(apdu.subrange(5, 101), key),
    ensures
        command_step(
            Phase::Importing { remaining, encrypted: true },
            store,
            key,
            apdu,
            nonce,
            draws,
        ).phase == Phase::Idle,
        command_step(
            Phase::Importing { remaining, encrypted: true },
            store,
            key,
            apdu,
            nonce,
            draws,
        ).store == store,
        command_step(
            Phase::Importing { remaining, encrypted: true },
            store,
            key,
            apdu,
            nonce,
            draws,
        ).action == bare(Status::Failure),
{
}

/// A round of an import that does not abort counts one record off, and
/// ends the import when it was the last. It puts its record into the store
/// and reports success where there was room for it; where the record
/// brings a new name to a full store, it reports failure and the import
/// goes on.
pub proof fn lemma_import_counts_down(
    remaining: u32,
    encrypted: bool,
    store: Seq<PasswordItem>,
    key: Seq<u8>,
    apdu: Seq<u8>,
    nonce: Seq<u8>,
    draws: Seq<u32>,
)
    requires
        remaining > 0,
        apdu[1] == INS_IMPORT_NEXT,
        import_record(apdu, encrypted, key) is Some,
    ensures
        command_step(
            Phase::Importing { remaining, encrypted },
            store,
            key,
            apdu,
            nonce,
            draws,
        ).phase == if remaining == 1 {
            Phase::Idle
        } else {
            Phase::Importing { remaining: (remaining - 1) as u32, encrypted }
        },
        command_step(
            Phase::Importing { remaining, encrypted },
            store,
            key,
            apdu,
            nonce,
            draws,
        ).store == put(store, import_record(apdu, encrypted, key)->0),
        command_step(
            Phase::Importing { remaining, encrypted },
            store,
            key,
            apdu,
            nonce,
            draws,
        ).action == bare(
            if fits(store, import_record(apdu, encrypted, key)->0) {
                Status::Success
            } else {
                Status::Failure
            },
        ),
{
}

} // verus!
