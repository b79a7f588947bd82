//! The dispatcher: the device's side of the command protocol.
//!
//! The caller takes commands from the transport and answers from the owner,
//! hands each to the dispatcher, and does what the returned [`Action`] says.
//! The dispatcher looks at the store and changes it; it never waits.

use crate::bytes::{be32, u32_from_be, u32_to_be, write_at};
use crate::codec::{decode, decode_plain, encode, encode_plain, AuthFailure};
use crate::generator::{generate_random_password, picked, Draws};
use crate::password::{zero_padded, ArrayString, PasswordItem};
use crate::protocol::{
    accepted_step,
    bare,
    command_step,
    consent_step,
    export_record,
    export_start,
    export_step,
    field_at,
    fits,
    idle_step,
    import_record,
    import_step,
    put,
    requested_item,
    version_bytes,
    wanted,
    Action,
    ActionView,
    Error,
    Pending,
    Phase,
    Prompt,
    Status,
    Want,
    INS_DELETE_ALL,
    INS_DELETE_BY_NAME,
    INS_EXIT,
    INS_EXPORT,
    INS_EXPORT_NEXT,
    INS_GET_COUNT,
    INS_GET_NAME_BY_INDEX,
    INS_GET_PASSWORD_BY_NAME,
    INS_GET_VERSION,
    INS_IMPORT,
    INS_IMPORT_NEXT,
    INS_SET_PASSWORD,
};
use crate::store::{lemma_position, PasswordStore, StorageFullError};
use vstd::prelude::*;
use vstd::slice::{slice_subrange, slice_to_vec};

verus! {

/// What the device's random source gave for one round: a nonce for a sealed
/// record, and draws for a generated password. A round uses what
/// [`Dispatcher::wants`] names and does not look at the rest, which need not
/// be random.
#[derive(Clone, Copy, Debug)]
pub struct Entropy {
    pub nonce: [u8; 16],
    pub draws: Draws,
}

/// The status that reports `outcome`.
pub fn status_of(outcome: &Result<(), Error>) -> (status: Status)
    ensures
        status == if *outcome is Ok {
            Status::Success
        } else {
            Status::Failure
        },
{
    match outcome {
        Ok(_) => Status::Success,
        Err(_) => Status::Failure,
    }
}

/// A reply without payload.
fn bare_reply(status: Status) -> (action: Action)
    ensures
        action@ == bare(status),
{
    let action = Action::Reply { status, payload: Vec::new() };
    assert(action@.arrow_Reply_payload() =~= Seq::<u8>::empty());
    action
}

/// A successful reply that carries `bytes`.
fn data_reply(bytes: &[u8]) -> (action: Action)
    ensures
        action@ == (ActionView::Reply { status: Status::Success, payload: bytes@ }),
{
    Action::Reply { status: Status::Success, payload: slice_to_vec(bytes) }
}

/// The 32 bytes of a command buffer that start at `offset`.
fn name_field(apdu: &[u8; 260], offset: usize) -> (name: ArrayString<32>)
    requires
        offset + 32 <= 260,
    ensures
        name == ArrayString::<32>::of(field_at(apdu@, offset as int)),
{
    let name = ArrayString::<32>::from_bytes(slice_subrange(apdu.as_slice(), offset, offset + 32));
    proof {
        assert(name@ =~= field_at(apdu@, offset as int));
        name.lemma_of_view();
    }
    name
}

/// The number that the first four bytes of the payload spell.
fn number_field(apdu: &[u8; 260]) -> (n: u32)
    ensures
        n == be32(apdu@.subrange(5, 9)),
{
    let mut bytes = [0u8; 4];
    write_at(&mut bytes, 0, slice_subrange(apdu.as_slice(), 5, 9));
    assert(bytes@ =~= apdu@.subrange(5, 9));
    u32_from_be(&bytes)
}

/// The entry to store under `name`: with the password `pass`, or where
/// there is none with a generated password of sixteen characters that the
/// draws pick.
pub fn new_item(name: &ArrayString<32>, pass: &Option<ArrayString<32>>, draws: &Draws) -> (item:
    PasswordItem)
    ensures
        item.name == *name,
        item.pass == match *pass {
            Some(given) => given,
            None => ArrayString::<32>::of(zero_padded(picked(draws@.subrange(0, 16)), 32)),
        },
{
    let mut item = PasswordItem::new();
    item.name = *name;
    match pass {
        Some(given) => {
            item.pass = *given;
        },
        None => {
            let mut generated = [0u8; 16];
            generate_random_password(&mut generated, 16, draws.as_slice());
            item.pass.set_from_bytes(generated.as_slice());
            proof {
                assert(generated@ =~= generated@.subrange(0, 16));
                item.pass.lemma_of_view();
            }
        },
    }
    item
}

/// Puts `item` into the store under its name. Where an entry has the name
/// already, the first such entry is removed and `item` is appended; where
/// none has it, `item` is appended if the store has room, and else the call
/// fails and changes nothing.
pub fn put_item(passwords: &mut PasswordStore, item: &PasswordItem) -> (stored: Result<
    (),
    StorageFullError,
>)
    ensures
        stored is Ok <==> fits(old(passwords)@, *item),
        final(passwords)@ == put(old(passwords)@, *item),
{
    let ghost before = passwords@;
    match passwords.find_by_name(&item.name) {
        Some(index) => {
            proof {
                lemma_position(before, item.name@);
            }
            passwords.remove(index);
            passwords.add(item)
        },
        None => passwords.add(item),
    }
}

/// Adds or updates a password in the store, if the owner has consented.
///
/// With consent, `new_item` takes the place of the entry of the same name,
/// or is appended where no entry has the name and the store has room.
pub fn set_password(passwords: &mut PasswordStore, new_item: &PasswordItem, consent: bool) -> (done:
    Result<(), Error>)
    ensures
        done == if !consent {
            Err::<(), Error>(Error::NoConsent)
        } else if fits(old(passwords)@, *new_item) {
            Ok::<(), Error>(())
        } else {
            Err::<(), Error>(Error::StorageFull)
        },
        final(passwords)@ == if consent {
            put(old(passwords)@, *new_item)
        } else {
            old(passwords)@
        },
{
    if !consent {
        return Err(Error::NoConsent);
    }
    match put_item(passwords, new_item) {
        Ok(_) => Ok(()),
        Err(_) => Err(Error::StorageFull),
    }
}

/// The record that an export round sends for `item`.
pub fn export_item(item: &PasswordItem, key: Option<&[u8; 32]>, nonce: &[u8; 16]) -> (record: Vec<
    u8,
>)
    ensures
        record@ == match key {
            Some(k) => export_record(*item, true, k@, nonce@),
            None => export_record(*item, false, Seq::<u8>::empty(), nonce@),
        },
{
    match key {
        Some(k) => {
            let record = encode(item, k, nonce);
            slice_to_vec(record.as_slice())
        },
        None => {
            let record = encode_plain(item);
            slice_to_vec(record.as_slice())
        },
    }
}

/// The entry that an import round reads from the payload of `apdu`.
pub fn import_item(apdu: &[u8; 260], key: Option<&[u8; 32]>) -> (entry: Result<
    PasswordItem,
    AuthFailure,
>)
    ensures
        match key {
            Some(k) => import_record(apdu@, true, k@),
            None => import_record(apdu@, false, Seq::<u8>::empty()),
        } == match entry {
            Ok(item) => Some(item),
            Err(_) => None::<PasswordItem>,
        },
{
    match key {
        Some(k) => {
            let mut record = [0u8; 96];
            write_at(&mut record, 0, slice_subrange(apdu.as_slice(), 5, 101));
            assert(record@ =~= apdu@.subrange(5, 101));
            decode(&record, k)
        },
        None => {
            let mut record = [0u8; 64];
            write_at(&mut record, 0, slice_subrange(apdu.as_slice(), 5, 69));
            assert(record@ =~= apdu@.subrange(5, 69));
            Ok(decode_plain(&record))
        },
    }
}

#[derive(Clone, Copy)]
enum State {
    Idle,
    Confirming(Pending),
    Exporting { cursor: usize, encrypted: bool },
    Importing { remaining: u32, encrypted: bool },
}

/// The device's side of the protocol: where it stands between two rounds,
/// and the key that seals exported records. Its view is the phase; the key,
/// which no round changes, is what [`Dispatcher::key`] gives.
pub struct Dispatcher {
    state: State,
    snapshot: PasswordStore,
    key: [u8; 32],
}

impl View for Dispatcher {
    type V = Phase;

    closed spec fn view(&self) -> Phase {
        match self.state {
            State::Idle => Phase::Idle,
            State::Confirming(pending) => Phase::Confirming(pending),
            State::Exporting { cursor, encrypted } => Phase::Exporting {
                snapshot: self.snapshot@,
                cursor: cursor as nat,
                encrypted,
            },
            State::Importing { remaining, encrypted } => Phase::Importing { remaining, encrypted },
        }
    }
}

impl Dispatcher {
    #[verifier::type_invariant]
    spec fn well_formed(&self) -> bool {
        self@.wf()
    }

    /// The key that seals exported records and opens imported ones.
    pub closed spec fn key(&self) -> Seq<u8> {
        self.key@
    }

    /// An idle dispatcher that seals and opens records with `key`.
    pub fn new(key: [u8; 32]) -> (dispatcher: Self)
        ensures
            dispatcher@ == Phase::Idle,
            dispatcher.key() == key@,
    {
        Dispatcher { state: State::Idle, snapshot: PasswordStore::new(), key }
    }

    /// Whether no sequence is under way and no prompt is shown.
    pub fn is_idle(&self) -> (idle: bool)
        ensures
            idle == (self@ is Idle),
    {
        match self.state {
            State::Idle => true,
            _ => false,
        }
    }

    /// Whether an export is under way.
    pub fn is_exporting(&self) -> (exporting: bool)
        ensures
            exporting == (self@ is Exporting),
    {
        match self.state {
            State::Exporting { .. } => true,
            _ => false,
        }
    }

    /// Whether an import is under way.
    pub fn is_importing(&self) -> (importing: bool)
        ensures
            importing == (self@ is Importing),
    {
        match self.state {
            State::Importing { .. } => true,
            _ => false,
        }
    }

    /// What the round of the command in `apdu` needs from the random source.
    pub fn wants(&self, apdu: &[u8; 260]) -> (want: Want)
        ensures
            want == wanted(self@, apdu@),
    {
        match self.state {
            State::Idle => {
                if apdu[1] == INS_SET_PASSWORD && apdu[2] != 0 {
                    Want::Picks
                } else {
                    Want::Nothing
                }
            },
            State::Exporting { encrypted, .. } => {
                if apdu[1] == INS_EXPORT_NEXT && encrypted {
                    Want::Nonce
                } else {
                    Want::Nothing
                }
            },
            _ => Want::Nothing,
        }
    }

    /// A command in the idle phase.
    fn idle_command(&mut self, store: &PasswordStore, apdu: &[u8; 260], draws: &Draws) -> (action:
        Action)
        requires
            old(self)@ is Idle,
        ensures
            final(self).key() == old(self).key(),
            final(self)@ == idle_step(store@, apdu@, draws@).phase,
            store@ == idle_step(store@, apdu@, draws@).store,
            action@ == idle_step(store@, apdu@, draws@).action,
    {
        let ins = apdu[1];
        let p1 = apdu[2];
        let name = name_field(apdu, 5);
        if ins == INS_GET_VERSION {
            let version: [u8; 5] = [0x30, 0x2e, 0x31, 0x2e, 0x30];
            assert(version@ =~= version_bytes());
            data_reply(version.as_slice())
        } else if ins == INS_GET_COUNT {
            let count = u32_to_be(store.len() as u32);
            data_reply(count.as_slice())
        } else if ins == INS_SET_PASSWORD {
            let pass = if p1 == 0 {
                Some(name_field(apdu, 37))
            } else {
                None
            };
            let item = new_item(&name, &pass, draws);
            assert(item == requested_item(apdu@, draws@));
            let prompt = match store.find_by_name(&name) {
                Some(_) => Prompt::UpdatePassword(name),
                None => Prompt::CreatePassword(name),
            };
            self.state = State::Confirming(Pending::SetPassword(item));
            Action::Ask(prompt)
        } else if ins == INS_GET_NAME_BY_INDEX {
            let index = number_field(apdu);
            match store.get(index as usize) {
                Some(entry) => data_reply(entry.name.bytes().as_slice()),
                None => bare_reply(Status::Failure),
            }
        } else if ins == INS_GET_PASSWORD_BY_NAME {
            match store.find_by_name(&name) {
                Some(_) => {
                    self.state = State::Confirming(Pending::ReadPassword(name));
                    Action::Ask(Prompt::ReadPassword(name))
                },
                None => bare_reply(Status::Failure),
            }
        } else if ins == INS_DELETE_BY_NAME {
            match store.find_by_name(&name) {
                Some(_) => {
                    self.state = State::Confirming(Pending::RemovePassword(name));
                    Action::Ask(Prompt::RemovePassword(name))
                },
                None => bare_reply(Status::Failure),
            }
        } else if ins == INS_EXPORT {
            if p1 == 0 || p1 == 1 {
                self.state = State::Confirming(Pending::Export { encrypted: p1 == 1 });
                Action::Ask(Prompt::ExportPasswords)
            } else {
                bare_reply(Status::Failure)
            }
        } else if ins == INS_IMPORT {
            if p1 == 0 || p1 == 1 {
                let count = number_field(apdu);
                self.state = State::Confirming(Pending::Import { count, encrypted: p1 == 1 });
                Action::Ask(Prompt::ImportPasswords)
            } else {
                bare_reply(Status::Failure)
            }
        } else if ins == INS_DELETE_ALL {
            self.state = State::Confirming(Pending::RemoveAll);
            Action::Ask(Prompt::RemoveAll)
        } else if ins == INS_EXIT {
            Action::Exit
        } else {
            bare_reply(Status::BadInstruction)
        }
    }

    /// One round of an export.
    fn export_next(&mut self, cursor: usize, encrypted: bool, nonce: &[u8; 16]) -> (action: Action)
        requires
            old(self).state == (State::Exporting { cursor, encrypted }),
        ensures
            final(self).key() == old(self).key(),
            old(self)@ matches Phase::Exporting { snapshot, .. } && forall|store: Seq<PasswordItem>|
                {
                    let step = #[trigger] export_step(
                        store,
                        snapshot,
                        cursor as nat,
                        encrypted,
                        old(self).key(),
                        nonce@,
                    );
                    final(self)@ == step.phase && action@ == step.action
                },
    {
        proof {
            use_type_invariant(&*self);
        }
        let entry = self.snapshot.get(cursor);
        let item = entry.unwrap();
        let payload = if encrypted {
            export_item(&item, Some(&self.key), nonce)
        } else {
            export_item(&item, None, nonce)
        };
        if cursor + 1 < self.snapshot.len() {
            self.state = State::Exporting { cursor: cursor + 1, encrypted };
        } else {
            self.state = State::Idle;
        }
        Action::Reply { status: Status::Success, payload }
    }

    /// One round of an import.
    fn import_next(
        &mut self,
        store: &mut PasswordStore,
        apdu: &[u8; 260],
        remaining: u32,
        encrypted: bool,
    ) -> (action: Action)
        requires
            old(self).state == (State::Importing { remaining, encrypted }),
        ensures
            final(self).key() == old(self).key(),
            final(self)@ == import_step(
                old(store)@,
                remaining,
                encrypted,
                old(self).key(),
                apdu@,
            ).phase,
            final(store)@ == import_step(
                old(store)@,
                remaining,
                encrypted,
                old(self).key(),
                apdu@,
            ).store,
            action@ == import_step(old(store)@, remaining, encrypted, old(self).key(), apdu@).action,
    {
        proof {
            use_type_invariant(&*self);
        }
        let decoded = if encrypted {
            import_item(apdu, Some(&self.key))
        } else {
            import_item(apdu, None)
        };
        match decoded {
            Err(_) => {
                self.state = State::Idle;
                bare_reply(Status::Failure)
            },
            Ok(item) => {
                let stored = put_item(store, &item);
                if remaining > 1 {
                    self.state = State::Importing { remaining: remaining - 1, encrypted };
                } else {
                    self.state = State::Idle;
                }
                match stored {
                    Ok(_) => bare_reply(Status::Success),
                    Err(_) => bare_reply(Status::Failure),
                }
            },
        }
    }

    /// Takes one command and tells what to do about it.
    ///
    /// `apdu` is the command buffer as the transport filled it; `entropy` is
    /// fresh for this round.
    pub fn on_command(&mut self, store: &mut PasswordStore, apdu: &[u8; 260], entropy: &Entropy)
        -> (action: Action)
        ensures
            final(self).key() == old(self).key(),
            final(self)@ == command_step(
                old(self)@,
                old(store)@,
                old(self).key(),
                apdu@,
                entropy.nonce@,
                entropy.draws@,
            ).phase,
            final(store)@ == command_step(
                old(self)@,
                old(store)@,
                old(self).key(),
                apdu@,
                entropy.nonce@,
                entropy.draws@,
            ).store,
            action@ == command_step(
                old(self)@,
                old(store)@,
                old(self).key(),
                apdu@,
                entropy.nonce@,
                entropy.draws@,
            ).action,
    {
        let ins = apdu[1];
        match self.state {
            State::Idle => self.idle_command(store, apdu, &entropy.draws),
            State::Confirming(_) => {
                self.state = State::Idle;
                bare_reply(Status::BadInstruction)
            },
            State::Exporting { cursor, encrypted } => {
                if ins == INS_EXPORT_NEXT {
                    self.export_next(cursor, encrypted, &entropy.nonce)
                } else {
                    self.state = State::Idle;
                    bare_reply(Status::BadInstruction)
                }
            },
            State::Importing { remaining, encrypted } => {
                if ins == INS_IMPORT_NEXT {
                    self.import_next(store, apdu, remaining, encrypted)
                } else {
                    self.state = State::Idle;
                    bare_reply(Status::BadInstruction)
                }
            },
        }
    }

    /// Starts an export that the owner has agreed to.
    fn begin_export(&mut self, store: &PasswordStore, encrypted: bool) -> (action: Action)
        ensures
            final(self).key() == old(self).key(),
            final(self)@ == export_start(store@, encrypted).phase,
            action@ == export_start(store@, encrypted).action,
    {
        let count = store.len();
        if count > 0 {
            self.state = State::Idle;
            self.snapshot = store.snapshot();
            self.state = State::Exporting { cursor: 0, encrypted };
        } else {
            self.state = State::Idle;
        }
        let spelled = u32_to_be(count as u32);
        data_reply(spelled.as_slice())
    }

    /// Carries out the pending command, whose prompt the owner accepted.
    fn accept(&mut self, store: &mut PasswordStore, pending: Pending) -> (action: Action)
        ensures
            final(self).key() == old(self).key(),
            final(self)@ == accepted_step(old(store)@, pending).phase,
            final(store)@ == accepted_step(old(store)@, pending).store,
            action@ == accepted_step(old(store)@, pending).action,
    {
        match pending {
            Pending::SetPassword(item) => {
                self.state = State::Idle;
                let done = set_password(store, &item, true);
                bare_reply(status_of(&done))
            },
            Pending::ReadPassword(name) => {
                self.state = State::Idle;
                match store.find_by_name(&name) {
                    Some(index) => {
                        proof {
                            lemma_position(store@, name@);
                        }
                        let entry = store.get(index).unwrap();
                        data_reply(entry.pass.bytes().as_slice())
                    },
                    None => bare_reply(Status::Failure),
                }
            },
            Pending::RemovePassword(name) => {
                self.state = State::Idle;
                match store.find_by_name(&name) {
                    Some(index) => {
                        proof {
                            lemma_position(store@, name@);
                        }
                        store.remove(index);
                        bare_reply(Status::Success)
                    },
                    None => bare_reply(Status::Failure),
                }
            },
            Pending::RemoveAll => {
                self.state = State::Confirming(Pending::RemoveAllConfirm);
                Action::Ask(Prompt::AreYouSure)
            },
            Pending::RemoveAllConfirm => {
                self.state = State::Idle;
                store.clear();
                bare_reply(Status::Success)
            },
            Pending::Export { encrypted } => {
                if encrypted {
                    self.begin_export(store, true)
                } else {
                    self.state = State::Confirming(Pending::ExportPlaintext);
                    Action::Ask(Prompt::ExportPlaintext)
                }
            },
            Pending::ExportPlaintext => self.begin_export(store, false),
            Pending::Import { count, encrypted } => {
                if count > 0 {
                    self.state = State::Importing { remaining: count, encrypted };
                } else {
                    self.state = State::Idle;
                }
                bare_reply(Status::Success)
            },
        }
    }

    /// Takes the owner's answer to the prompt that was shown, and tells what
    /// to do next.
    pub fn on_consent(&mut self, store: &mut PasswordStore, accepted: bool) -> (action: Action)
        ensures
            final(self).key() == old(self).key(),
            final(self)@ == consent_step(old(self)@, old(store)@, accepted).phase,
            final(store)@ == consent_step(old(self)@, old(store)@, accepted).store,
            action@ == consent_step(old(self)@, old(store)@, accepted).action,
    {
        match self.state {
            State::Confirming(pending) => {
                if accepted {
                    self.accept(store, pending)
                } else {
                    self.state = State::Idle;
                    bare_reply(Status::Failure)
                }
            },
            _ => Action::Wait,
        }
    }
}

} // verus!
