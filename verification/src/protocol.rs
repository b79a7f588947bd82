//! The command protocol: what the device is asked, what it answers, and the
//! rule that takes it from one round to the next.
//!
//! A command arrives as a 260-byte buffer: the instruction at offset 1, its
//! selector at offset 2 and the payload from offset 5 on. The device answers
//! at once, or first puts a prompt before its owner and answers when the
//! owner has accepted or declined. Exports and imports run over several
//! rounds, one record a round.

use crate::bytes::{be32, be_bytes};
use crate::codec::{
    authentic,
    cbc_decrypt,
    ciphertext_of,
    entry_bytes,
    entry_of,
    nonce_of,
    sealed,
};
use crate::generator::picked;
use crate::password::{zero_padded, ArrayString, PasswordItem};
use crate::store::position;
use vstd::prelude::*;

verus! {

/// Length in bytes of a command buffer.
pub const APDU_LEN: usize = 260;

/// Instruction: report the version.
pub const INS_GET_VERSION: u8 = 0x01;

/// Instruction: report the number of entries.
pub const INS_GET_COUNT: u8 = 0x02;

/// Instruction: store a password under a name; selector 0 takes the
/// password from the payload, any other selector has one generated.
pub const INS_SET_PASSWORD: u8 = 0x03;

/// Instruction: report the name of the entry at an index.
pub const INS_GET_NAME_BY_INDEX: u8 = 0x04;

/// Instruction: report the password kept under a name.
pub const INS_GET_PASSWORD_BY_NAME: u8 = 0x05;

/// Instruction: remove the entry of a name.
pub const INS_DELETE_BY_NAME: u8 = 0x06;

/// Instruction: start an export; selector 0 for plain records, 1 for sealed
/// ones.
pub const INS_EXPORT: u8 = 0x07;

/// Instruction: send the next record of the export under way.
pub const INS_EXPORT_NEXT: u8 = 0x08;

/// Instruction: start an import of as many records as the payload says;
/// selector 0 for plain records, 1 for sealed ones.
pub const INS_IMPORT: u8 = 0x09;

/// Instruction: take the next record of the import under way.
pub const INS_IMPORT_NEXT: u8 = 0x0a;

/// Instruction: remove every entry.
pub const INS_DELETE_ALL: u8 = 0x0b;

/// Instruction: leave the application.
pub const INS_EXIT: u8 = 0x0c;

/// The three outcomes that a reply can report.
#[derive(Clone, Copy, Debug, PartialEq, Eq)]
pub enum Status {
    /// The command was carried out.
    Success,
    /// Not found, declined, full, or not authentic.
    Failure,
    /// The instruction is unknown, or has no place in the current sequence.
    BadInstruction,
}

/// Why a password was not set.
#[derive(Clone, Copy, Debug, PartialEq, Eq)]
pub enum Error {
    /// The owner declined the prompt.
    NoConsent,
    /// No entry has the name, and the store holds as many entries as it can.
    StorageFull,
}

/// What is put before the owner, to accept or to decline.
#[derive(Clone, Copy, Debug, PartialEq, Eq)]
pub enum Prompt {
    /// Replace the password kept under this name?
    UpdatePassword(ArrayString<32>),
    /// Store a password under this new name?
    CreatePassword(ArrayString<32>),
    /// Hand the password kept under this name to the host?
    ReadPassword(ArrayString<32>),
    /// Remove the entry of this name?
    RemovePassword(ArrayString<32>),
    /// Remove every entry?
    RemoveAll,
    /// Remove every entry, really?
    AreYouSure,
    /// Hand every entry to the host?
    ExportPasswords,
    /// Hand every entry to the host unprotected?
    ExportPlaintext,
    /// Take entries from the host?
    ImportPasswords,
}

/// The command that waits for the owner's answer.
#[derive(Clone, Copy, Debug, PartialEq, Eq)]
pub enum Pending {
    /// Put this entry into the store.
    SetPassword(PasswordItem),
    /// Report the password kept under this name.
    ReadPassword(ArrayString<32>),
    /// Remove the entry of this name.
    RemovePassword(ArrayString<32>),
    /// Remove every entry; the first of two prompts is shown.
    RemoveAll,
    /// Remove every entry; the second of two prompts is shown.
    RemoveAllConfirm,
    /// Start an export; the first prompt is shown.
    Export { encrypted: bool },
    /// Start an export of plain records; the warning is shown.
    ExportPlaintext,
    /// Start an import of `count` records.
    Import { count: u32, encrypted: bool },
}

/// What the device does at the end of a round.
#[derive(Debug, PartialEq, Eq)]
pub enum Action {
    /// Send the reply, then take the next command.
    Reply { status: Status, payload: Vec<u8> },
    /// Show the prompt and hand the owner's answer back.
    Ask(Prompt),
    /// Report success, then leave the application.
    Exit,
    /// Nothing to send: take the next command.
    Wait,
}

/// An [`Action`], its payload as a sequence of bytes.
pub enum ActionView {
    Reply { status: Status, payload: Seq<u8> },
    Ask(Prompt),
    Exit,
    Wait,
}

impl View for Action {
    type V = ActionView;

    open spec fn view(&self) -> ActionView {
        match self {
            Action::Reply { status, payload } => ActionView::Reply {
                status: *status,
                payload: payload@,
            },
            Action::Ask(prompt) => ActionView::Ask(*prompt),
            Action::Exit => ActionView::Exit,
            Action::Wait => ActionView::Wait,
        }
    }
}

/// Where the device stands between two rounds.
pub enum Phase {
    /// No sequence is under way and no prompt is shown.
    Idle,
    /// A prompt is shown; the command waits for the answer.
    Confirming(Pending),
    /// An export is under way: `cursor` entries of `snapshot` were sent.
    Exporting { snapshot: Seq<PasswordItem>, cursor: nat, encrypted: bool },
    /// An import is under way: `remaining` records are still expected.
    Importing { remaining: u32, encrypted: bool },
}

impl Phase {
    /// An export has an entry left to send, and an import a record to expect.
    pub open spec fn wf(self) -> bool {
        match self {
            Phase::Exporting { snapshot, cursor, .. } => cursor < snapshot.len() <= 128,
            Phase::Importing { remaining, .. } => remaining > 0,
            _ => true,
        }
    }
}

/// The outcome of one round: where the device stands, what the store holds,
/// and what the device does.
pub struct Step {
    pub phase: Phase,
    pub store: Seq<PasswordItem>,
    pub action: ActionView,
}

/// The version that the device reports: `0.1.0`.
pub open spec fn version_bytes() -> Seq<u8> {
    seq![0x30u8, 0x2eu8, 0x31u8, 0x2eu8, 0x30u8]
}

/// The 32 bytes of a command buffer that start at `offset`.
pub open spec fn field_at(apdu: Seq<u8>, offset: int) -> Seq<u8> {
    apdu.subrange(offset, offset + 32)
}

/// A reply without payload.
pub open spec fn bare(status: Status) -> ActionView {
    ActionView::Reply { status, payload: Seq::empty() }
}

/// The round ends in an idle device that reports `status`; the store stays.
pub open spec fn settle(store: Seq<PasswordItem>, status: Status) -> Step {
    Step { phase: Phase::Idle, store, action: bare(status) }
}

/// The round ends with `prompt` shown and `pending` waiting for the answer.
pub open spec fn ask(store: Seq<PasswordItem>, pending: Pending, prompt: Prompt) -> Step {
    Step { phase: Phase::Confirming(pending), store, action: ActionView::Ask(prompt) }
}

/// The entry that a set-password command asks to store: the name from the
/// payload, and the password from the payload where the selector is 0,
/// else the sixteen characters that the draws pick.
pub open spec fn requested_item(apdu: Seq<u8>, draws: Seq<u32>) -> PasswordItem {
    PasswordItem {
        name: ArrayString::of(field_at(apdu, 5)),
        pass: if apdu[2] == 0 {
            ArrayString::of(field_at(apdu, 37))
        } else {
            ArrayString::of(zero_padded(picked(draws.subrange(0, 16)), 32))
        },
    }
}

/// The store after `item` was put in. Where an entry has the name already,
/// the first such entry leaves and `item` is appended; where none has it,
/// `item` is appended if the store has room, and else the store stays as it
/// is.
pub open spec fn put(store: Seq<PasswordItem>, item: PasswordItem) -> Seq<PasswordItem> {
    match position(store, item.name@) {
        Some(i) => store.remove(i).push(item),
        None => if store.len() < 128 {
            store.push(item)
        } else {
            store
        },
    }
}

/// Whether [`put`] finds room for `item`.
pub open spec fn fits(store: Seq<PasswordItem>, item: PasswordItem) -> bool {
    position(store, item.name@) is Some || store.len() < 128
}

/// A command that arrives while the device is idle.
pub open spec fn idle_step(store: Seq<PasswordItem>, apdu: Seq<u8>, draws: Seq<u32>) -> Step {
    let ins = apdu[1];
    let p1 = apdu[2];
    let name = ArrayString::<32>::of(field_at(apdu, 5));
    if ins == INS_GET_VERSION {
        Step {
            phase: Phase::Idle,
            store,
            action: ActionView::Reply { status: Status::Success, payload: version_bytes() },
        }
    } else if ins == INS_GET_COUNT {
        Step {
            phase: Phase::Idle,
            store,
            action: ActionView::Reply {
                status: Status::Success,
                payload: be_bytes(store.len() as u32),
            },
        }
    } else if ins == INS_SET_PASSWORD {
        let item = requested_item(apdu, draws);
        if position(store, name@) is Some {
            ask(store, Pending::SetPassword(item), Prompt::UpdatePassword(name))
        } else {
            ask(store, Pending::SetPassword(item), Prompt::CreatePassword(name))
        }
    } else if ins == INS_GET_NAME_BY_INDEX {
        let index = be32(apdu.subrange(5, 9));
        if index < store.len() {
            Step {
                phase: Phase::Idle,
                store,
                action: ActionView::Reply {
                    status: Status::Success,
                    payload: store[index as int].name@,
                },
            }
        } else {
            settle(store, Status::Failure)
        }
    } else if ins == INS_GET_PASSWORD_BY_NAME {
        if position(store, name@) is Some {
            ask(store, Pending::ReadPassword(name), Prompt::ReadPassword(name))
        } else {
            settle(store, Status::Failure)
        }
    } else if ins == INS_DELETE_BY_NAME {
        if position(store, name@) is Some {
            ask(store, Pending::RemovePassword(name), Prompt::RemovePassword(name))
        } else {
            settle(store, Status::Failure)
        }
    } else if ins == INS_EXPORT {
        if p1 == 0 || p1 == 1 {
            ask(store, Pending::Export { encrypted: p1 == 1 }, Prompt::ExportPasswords)
        } else {
            settle(store, Status::Failure)
        }
    } else if ins == INS_IMPORT {
        if p1 == 0 || p1 == 1 {
            ask(
                store,
                Pending::Import { count: be32(apdu.subrange(5, 9)), encrypted: p1 == 1 },
                Prompt::ImportPasswords,
            )
        } else {
            settle(store, Status::Failure)
        }
    } else if ins == INS_DELETE_ALL {
        ask(store, Pending::RemoveAll, Prompt::RemoveAll)
    } else if ins == INS_EXIT {
        Step { phase: Phase::Idle, store, action: ActionView::Exit }
    } else {
        settle(store, Status::BadInstruction)
    }
}

/// The record that an export round sends for `item`.
pub open spec fn export_record(item: PasswordItem, encrypted: bool, key: Seq<u8>, nonce: Seq<u8>)
    -> Seq<u8> {
    if encrypted {
        sealed(item, key, nonce)
    } else {
        entry_bytes(item)
    }
}

/// One round of an export: the entry under the cursor goes out, and the
/// export is over when it was the last of the snapshot. The store is not
/// looked at.
pub open spec fn export_step(
    store: Seq<PasswordItem>,
    snapshot: Seq<PasswordItem>,
    cursor: nat,
    encrypted: bool,
    key: Seq<u8>,
    nonce: Seq<u8>,
) -> Step {
    Step {
        phase: if cursor + 1 < snapshot.len() {
            Phase::Exporting { snapshot, cursor: cursor + 1, encrypted }
        } else {
            Phase::Idle
        },
        store,
        action: ActionView::Reply {
            status: Status::Success,
            payload: export_record(snapshot[cursor as int], encrypted, key, nonce),
        },
    }
}

/// The entry that an import round reads from the payload, or nothing where
/// a sealed record does not carry the tag of its ciphertext.
pub open spec fn import_record(apdu: Seq<u8>, encrypted: bool, key: Seq<u8>) -> Option<
    PasswordItem,
> {
    if encrypted {
        let record = apdu.subrange(5, 101);
        if authentic(record, key) {
            Some(entry_of(cbc_decrypt(key, nonce_of(record), ciphertext_of(record))))
        } else {
            None
        }
    } else {
        Some(entry_of(apdu.subrange(5, 69)))
    }
}

/// One round of an import. A record that is not authentic ends the import
/// and leaves the store alone. Any other record is put into the store, in
/// place of an entry of the same name where there is one; the reply tells
/// whether there was room, and the import goes on until the last record
/// that was announced.
pub open spec fn import_step(
    store: Seq<PasswordItem>,
    remaining: u32,
    encrypted: bool,
    key: Seq<u8>,
    apdu: Seq<u8>,
) -> Step {
    match import_record(apdu, encrypted, key) {
        None => settle(store, Status::Failure),
        Some(item) => Step {
            phase: if remaining > 1 {
                Phase::Importing { remaining: (remaining - 1) as u32, encrypted }
            } else {
                Phase::Idle
            },
            store: put(store, item),
            action: bare(
                if fits(store, item) {
                    Status::Success
                } else {
                    Status::Failure
                },
            ),
        },
    }
}

/// What a command does, given where the device stands.
pub open spec fn command_step(
    phase: Phase,
    store: Seq<PasswordItem>,
    key: Seq<u8>,
    apdu: Seq<u8>,
    nonce: Seq<u8>,
    draws: Seq<u32>,
) -> Step {
    match phase {
        Phase::Idle => idle_step(store, apdu, draws),
        Phase::Confirming(_) => settle(store, Status::BadInstruction),
        Phase::Exporting { snapshot, cursor, encrypted } => if apdu[1] == INS_EXPORT_NEXT {
            export_step(store, snapshot, cursor, encrypted, key, nonce)
        } else {
            settle(store, Status::BadInstruction)
        },
        Phase::Importing { remaining, encrypted } => if apdu[1] == INS_IMPORT_NEXT {
            import_step(store, remaining, encrypted, key, apdu)
        } else {
            settle(store, Status::BadInstruction)
        },
    }
}

/// The start of an export, once the owner has agreed to it: the reply
/// carries the number of entries, and the entries as they now are will be
/// sent, in their order.
pub open spec fn export_start(store: Seq<PasswordItem>, encrypted: bool) -> Step {
    Step {
        phase: if store.len() > 0 {
            Phase::Exporting { snapshot: store, cursor: 0, encrypted }
        } else {
            Phase::Idle
        },
        store,
        action: ActionView::Reply { status: Status::Success, payload: be_bytes(store.len() as u32) },
    }
}

/// What a round needs from the device's random source.
#[derive(Clone, Copy, Debug, PartialEq, Eq)]
pub enum Want {
    /// The round uses neither nonce nor draws.
    Nothing,
    /// The round seals a record: it uses the nonce.
    Nonce,
    /// The round generates a password: it uses the draws.
    Picks,
}

/// What the round of a command needs from the random source: draws where
/// an idle device is asked to set a generated password, a nonce where an
/// export of sealed records is asked for its next record, and else nothing.
pub open spec fn wanted(phase: Phase, apdu: Seq<u8>) -> Want {
    match phase {
        Phase::Idle => if apdu[1] == INS_SET_PASSWORD && apdu[2] != 0 {
            Want::Picks
        } else {
            Want::Nothing
        },
        Phase::Exporting { encrypted, .. } => if apdu[1] == INS_EXPORT_NEXT && encrypted {
            Want::Nonce
        } else {
            Want::Nothing
        },
        _ => Want::Nothing,
    }
}

/// What the pending command does once the owner has accepted its prompt.
pub open spec fn accepted_step(store: Seq<PasswordItem>, pending: Pending) -> Step {
    match pending {
        Pending::SetPassword(item) => Step {
            phase: Phase::Idle,
            store: put(store, item),
            action: bare(
                if fits(store, item) {
                    Status::Success
                } else {
                    Status::Failure
                },
            ),
        },
        Pending::ReadPassword(name) => match position(store, name@) {
            Some(i) => Step {
                phase: Phase::Idle,
                store,
                action: ActionView::Reply { status: Status::Success, payload: store[i].pass@ },
            },
            None => settle(store, Status::Failure),
        },
        Pending::RemovePassword(name) => match position(store, name@) {
            Some(i) => settle(store.remove(i), Status::Success),
            None => settle(store, Status::Failure),
        },
        Pending::RemoveAll => ask(store, Pending::RemoveAllConfirm, Prompt::AreYouSure),
        Pending::RemoveAllConfirm => settle(Seq::empty(), Status::Success),
        Pending::Export { encrypted } => if encrypted {
            export_start(store, true)
        } else {
            ask(store, Pending::ExportPlaintext, Prompt::ExportPlaintext)
        },
        Pending::ExportPlaintext => export_start(store, false),
        Pending::Import { count, encrypted } => Step {
            phase: if count > 0 {
                Phase::Importing { remaining: count, encrypted }
            } else {
                Phase::Idle
            },
            store,
            action: bare(Status::Success),
        },
    }
}

/// What the owner's answer to a prompt does. Declining leaves the store as
/// it is and reports failure. An answer that no prompt asked for changes
/// nothing.
pub open spec fn consent_step(phase: Phase, store: Seq<PasswordItem>, accepted: bool) -> Step {
    match phase {
        Phase::Confirming(pending) => if accepted {
            accepted_step(store, pending)
        } else {
            settle(store, Status::Failure)
        },
        _ => Step { phase, store, action: ActionView::Wait },
    }
}

} // verus!
