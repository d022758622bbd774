//! A FIX session: the state of the session with its counterparty, what is
//! done with each message received, and the messages it sends. The
//! connection and the clock are held by the caller, which hands in the bytes
//! received and the time elapsed since the last message.

pub mod message_store;
pub mod session_state;

pub use message_store::MessageStore;
pub use session_state::{FixSessionState, SessionStatus};

use crate::fix::bridge::{processed, FixOrderBridge};
use crate::fix::error::{FixError, SessionError};
use crate::fix::messages::header::fix44_text;
use crate::fix::messages::{FixMessage, Heartbeat, Logon, MessageType, Trailer};
use crate::fix::parser::raw_parser::checksum_check;
use crate::fix::parser::{message_parsed, FixParser};
use crate::order::Order;
use vstd::prelude::*;

verus! {

/// Nanoseconds in a second.
pub open spec fn nanos_per_sec() -> int {
    1_000_000_000
}

pub struct FixSession {
    session_state: FixSessionState,
    parser: FixParser,
    bridge: FixOrderBridge,
    message_store: MessageStore,
    heartbeat_interval: u32,
}

/// What handling the parsed message `m` does to the session, `r` being what
/// `process_incoming_message` returns: the incoming sequence number moves
/// on; a heartbeat is absorbed; a logon sets the heartbeat interval and logs
/// the session on; a new order goes through the bridge and is returned when
/// the bridge made an order of it; any other message is returned as it is.
pub open spec fn incoming_handled(
    before: FixSession,
    after: FixSession,
    m: FixMessage,
    r: Result<Option<FixMessage>, FixError>,
) -> bool {
    &&& after.state().incoming() == before.state().incoming() + 1
    &&& after.state().outgoing() == before.state().outgoing()
    &&& after.state().sender() == before.state().sender()
    &&& after.state().target() == before.state().target()
    &&& after.store() == before.store()
    &&& match m {
        FixMessage::Heartbeat(_) => {
            &&& r == Ok::<Option<FixMessage>, FixError>(None)
            &&& after.bridge_of() == before.bridge_of()
            &&& after.state().status_of() == before.state().status_of()
            &&& after.heartbeat_secs() == before.heartbeat_secs()
        },
        FixMessage::Logon(l) => {
            &&& r == Ok::<Option<FixMessage>, FixError>(None)
            &&& after.bridge_of() == before.bridge_of()
            &&& after.state().status_of() == SessionStatus::LoggedOn
            &&& after.heartbeat_secs() == l.heart_bt_int
        },
        FixMessage::NewOrderSingle(_) => {
            &&& after.state().status_of() == before.state().status_of()
            &&& after.heartbeat_secs() == before.heartbeat_secs()
            &&& exists|b: Result<Option<Order>, FixError>|
                {
                    &&& #[trigger] processed(before.bridge_of(), after.bridge_of(), m, b)
                    &&& match b {
                        Err(e) => r == Err::<Option<FixMessage>, FixError>(e),
                        Ok(None) => r == Ok::<Option<FixMessage>, FixError>(None),
                        Ok(Some(_)) => r matches Ok(Some(x)) && x.same_as(m),
                    }
                }
        },
        _ => {
            &&& r == Ok::<Option<FixMessage>, FixError>(Some(m))
            &&& after.bridge_of() == before.bridge_of()
            &&& after.state().status_of() == before.state().status_of()
            &&& after.heartbeat_secs() == before.heartbeat_secs()
        },
    }
}

impl FixSession {
    /// The session's parties, sequence numbers and status.
    pub closed spec fn state(&self) -> FixSessionState {
        self.session_state
    }

    /// The bridge that new orders go through.
    pub closed spec fn bridge_of(&self) -> FixOrderBridge {
        self.bridge
    }

    /// The messages kept for resending.
    pub closed spec fn store(&self) -> MessageStore {
        self.message_store
    }

    /// The heartbeat interval, in seconds.
    pub closed spec fn heartbeat_secs(&self) -> u32 {
        self.heartbeat_interval
    }

    /// The session's parts are consistent.
    pub closed spec fn wf(&self) -> bool {
        self.bridge.wf()
    }

    /// A disconnected session between the two parties, with both sequence
    /// numbers at 1, a heartbeat every 30 seconds, a bridge for the default
    /// symbols and nothing stored.
    pub fn new(sender_comp_id: String, target_comp_id: String) -> (r: Self)
        ensures
            r.wf(),
            r.state().sender() == sender_comp_id@,
            r.state().target() == target_comp_id@,
            r.state().outgoing() == 1,
            r.state().incoming() == 1,
            r.state().status_of() == SessionStatus::Disconnected,
            r.heartbeat_secs() == 30,
            r.bridge_of().symbols() == crate::fix::validation::business_validator::default_symbols(),
            r.bridge_of().active_ids() == Set::<Seq<char>>::empty(),
            r.store().outgoing() == Map::<u32, FixMessage>::empty(),
            r.store().incoming() == Map::<u32, FixMessage>::empty(),
    {
        FixSession {
            session_state: FixSessionState::new(sender_comp_id, target_comp_id),
            parser: FixParser::new(),
            bridge: FixOrderBridge::new(),
            message_store: MessageStore::new(),
            heartbeat_interval: 30,
        }
    }

    /// Handles the bytes of one message received: the checksum is checked,
    /// the message parsed, and then handled as `incoming_handled` says. On
    /// a checksum or parse error the session is left as it was.
    pub fn process_incoming_message(&mut self, data: &[u8]) -> (r: Result<
        Option<FixMessage>,
        FixError,
    >)
        requires
            old(self).wf(),
            old(self).state().incoming() < u32::MAX,
        ensures
            final(self).wf(),
            match checksum_check(data@) {
                Err(e) => r == Err::<Option<FixMessage>, FixError>(FixError::Parse(e)) && *final(self)
                    == *old(self),
                Ok(()) => exists|p: Result<FixMessage, FixError>|
                    #[trigger] message_parsed(data@, p) && match p {
                        Err(e) => r == Err::<Option<FixMessage>, FixError>(e) && final(self).state()
                            == old(self).state() && final(self).bridge_of() == old(self).bridge_of()
                            && final(self).store() == old(self).store()
                            && final(self).heartbeat_secs() == old(self).heartbeat_secs(),
                        Ok(m) => incoming_handled(*old(self), *final(self), m, r),
                    },
            },
    {
        match self.parser.validate_checksum(data) {
            Ok(()) => {},
            Err(e) => {
                return Err(FixError::Parse(e));
            },
        }
        let parsed = self.parser.parse(data);
        proof {
            assert(message_parsed(data@, parsed));
        }
        match parsed {
            Ok(message) => self.handle_message(message),
            Err(e) => Err(e),
        }
    }

    /// Handles a parsed message, as `incoming_handled` says.
    fn handle_message(&mut self, message: FixMessage) -> (r: Result<Option<FixMessage>, FixError>)
        requires
            old(self).wf(),
            old(self).state().incoming() < u32::MAX,
        ensures
            final(self).wf(),
            incoming_handled(*old(self), *final(self), message, r),
    {
        self.session_state.increment_incoming_seq_num();
        match message {
            FixMessage::Heartbeat(_) => Ok(None),
            FixMessage::Logon(logon) => {
                self.heartbeat_interval = logon.heart_bt_int;
                self.session_state.set_status(SessionStatus::LoggedOn);
                Ok(None)
            },
            FixMessage::NewOrderSingle(_) => {
                let ghost m = message;
                let copy = message.clone();
                let b = self.bridge.process_fix_message(message);
                proof {
                    assert(processed(old(self).bridge_of(), self.bridge_of(), m, b));
                }
                match b {
                    Ok(Some(_)) => Ok(Some(copy)),
                    Ok(None) => Ok(None),
                    Err(e) => Err(e),
                }
            },
            _ => Ok(Some(message)),
        }
    }

    /// A heartbeat is due once the interval has passed since the last one.
    pub fn heartbeat_due(&self, elapsed_nanos: u128) -> (r: bool)
        ensures
            r == (elapsed_nanos >= self.heartbeat_secs() * nanos_per_sec()),
    {
        elapsed_nanos >= (self.heartbeat_interval as u128) * 1_000_000_000
    }

    /// The counterparty has timed out when more than twice the heartbeat
    /// interval has passed since its last message.
    pub fn check_heartbeat_timeout(&self, elapsed_nanos: u128) -> (r: Result<(), SessionError>)
        ensures
            r is Err <==> elapsed_nanos > 2 * self.heartbeat_secs() * nanos_per_sec(),
            r is Err ==> r == Err::<(), SessionError>(SessionError::HeartbeatTimeout),
    {
        let threshold = (self.heartbeat_interval as u128) * 2_000_000_000;
        if elapsed_nanos > threshold {
            return Err(SessionError::HeartbeatTimeout);
        }
        Ok(())
    }

    /// Records a message as sent: the outgoing sequence number moves on and
    /// the message is stored for resending.
    pub fn message_sent(&mut self, message: &FixMessage) -> (r: Result<(), FixError>)
        requires
            old(self).state().outgoing() < u32::MAX,
        ensures
            r is Ok,
            final(self).wf() == old(self).wf(),
            final(self).state().outgoing() == old(self).state().outgoing() + 1,
            final(self).state().incoming() == old(self).state().incoming(),
            final(self).state().status_of() == old(self).state().status_of(),
            final(self).state().sender() == old(self).state().sender(),
            final(self).state().target() == old(self).state().target(),
            final(self).store().outgoing().dom() == old(self).store().outgoing().dom().insert(
                message.seq_num(),
            ),
            final(self).store().outgoing()[message.seq_num()].same_as(*message),
            forall|k: u32|
                k != message.seq_num() && #[trigger] old(self).store().outgoing().contains_key(k)
                    ==> final(self).store().outgoing()[k] == old(self).store().outgoing()[k],
            final(self).store().incoming() == old(self).store().incoming(),
            final(self).bridge_of() == old(self).bridge_of(),
            final(self).heartbeat_secs() == old(self).heartbeat_secs(),
    {
        self.session_state.increment_outgoing_seq_num();
        self.message_store.store_outgoing_message(message)
    }

    /// The bytes sent for a message: the session sends no body yet, so the
    /// bytes are empty.
    pub fn serialize_message(&self, message: &FixMessage) -> (r: Result<Vec<u8>, FixError>)
        ensures
            r matches Ok(v) && v@.len() == 0,
    {
        Ok(Vec::new())
    }

    /// Sets the session's status, as the connection comes and goes.
    pub fn set_session_status(&mut self, status: SessionStatus)
        ensures
            final(self).wf() == old(self).wf(),
            final(self).state().status_of() == status,
            final(self).state().outgoing() == old(self).state().outgoing(),
            final(self).state().incoming() == old(self).state().incoming(),
            final(self).bridge_of() == old(self).bridge_of(),
            final(self).store() == old(self).store(),
            final(self).heartbeat_secs() == old(self).heartbeat_secs(),
    {
        self.session_state.set_status(status);
    }

    /// A heartbeat carrying the next outgoing sequence number.
    pub fn create_heartbeat(&self, test_req_id: Option<String>) -> (r: Result<Heartbeat, FixError>)
        ensures
            r matches Ok(h) && {
                &&& h.header.msg_type == MessageType::Heartbeat
                &&& h.header.begin_string@ == fix44_text()
                &&& h.header.sender_comp_id@ == self.state().sender()
                &&& h.header.target_comp_id@ == self.state().target()
                &&& h.header.msg_seq_num == self.state().outgoing()
                &&& h.test_req_id == test_req_id
                &&& h.trailer.checksum == 0
            },
    {
        let header = self.session_state.create_header(MessageType::Heartbeat);
        let trailer = Trailer { checksum: 0 };
        Ok(Heartbeat { header, test_req_id, trailer })
    }

    /// A logon with no encryption, the session's heartbeat interval and no
    /// optional fields.
    pub fn create_logon(&self) -> (r: Result<Logon, FixError>)
        ensures
            r matches Ok(l) && {
                &&& l.header.msg_type == MessageType::Logon
                &&& l.header.begin_string@ == fix44_text()
                &&& l.header.sender_comp_id@ == self.state().sender()
                &&& l.header.target_comp_id@ == self.state().target()
                &&& l.header.msg_seq_num == self.state().outgoing()
                &&& l.encrypt_method == '0'
                &&& l.heart_bt_int == self.heartbeat_secs()
                &&& l.raw_data_length is None
                &&& l.raw_data is None
                &&& l.reset_seq_num_flag is None
                &&& l.next_expected_msg_seq_num is None
                &&& l.username is None
                &&& l.password is None
                &&& l.trailer.checksum == 0
            },
    {
        let header = self.session_state.create_header(MessageType::Logon);
        let trailer = Trailer { checksum: 0 };
        Ok(
            Logon {
                header,
                encrypt_method: '0',
                heart_bt_int: self.heartbeat_interval,
                raw_data_length: None,
                raw_data: None,
                reset_seq_num_flag: None,
                next_expected_msg_seq_num: None,
                username: None,
                password: None,
                trailer,
            },
        )
    }

    pub fn get_session_status(&self) -> (r: SessionStatus)
        ensures
            r == self.state().status_of(),
    {
        self.session_state.get_status()
    }

    pub fn get_outgoing_seq_num(&self) -> (r: u32)
        ensures
            r == self.state().outgoing(),
    {
        self.session_state.get_outgoing_seq_num()
    }

    pub fn get_incoming_seq_num(&self) -> (r: u32)
        ensures
            r == self.state().incoming(),
    {
        self.session_state.get_incoming_seq_num()
    }
}

} // verus!
