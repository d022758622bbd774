//! Session bookkeeping: parties, sequence numbers and status.

use crate::clock::unix_secs;
use crate::fix::messages::header::{fix44_string, fix44_text};
use crate::fix::messages::{MessageType, StandardHeader};
use crate::text::{padded_text, push_char, push_padded};
use vstd::prelude::*;

verus! {

#[derive(Debug, Clone, Copy, PartialEq, Eq, Structural)]
pub enum SessionStatus {
    Disconnected,
    Connected,
    LoggedOn,
    LoggedOut,
    Error,
}

pub struct FixSessionState {
    sender_comp_id: String,
    target_comp_id: String,
    outgoing_seq_num: u32,
    incoming_seq_num: u32,
    status: SessionStatus,
}

/// The sending-time text for `now` seconds since the epoch:
/// `YYYYMMDD-HH:MM:SS`, where the date is the rough calendar the session
/// uses (years of 365.25 days, months of 30 days, days counted modulo 30,
/// month and day capped at 12 and 31) and the time of day is exact.
pub open spec fn session_timestamp_text(now: nat) -> Seq<char> {
    let days = now / 86400;
    let year = 1970 + (days * 4) / 1461;
    let month = (days % 365) / 30 + 1;
    let day = days % 30 + 1;
    padded_text(year, 4) + padded_text(if month < 12 { month } else { 12 }, 2) + padded_text(
        if day < 31 { day } else { 31 },
        2,
    ) + seq!['-'] + padded_text((now / 3600) % 24, 2) + seq![':'] + padded_text((now / 60) % 60, 2)
        + seq![':'] + padded_text(now % 60, 2)
}

/// The sending-time text for the clock reading `now`.
pub fn timestamp_for(now: u64) -> (r: String)
    ensures
        r@ == session_timestamp_text(now as nat),
{
    let days = now / 86400;
    let year = 1970 + (days * 4) / 1461;
    let month = (days % 365) / 30 + 1;
    let day = days % 30 + 1;
    let month_shown = if month < 12 {
        month
    } else {
        12
    };
    let day_shown = if day < 31 {
        day
    } else {
        31
    };
    let mut s = String::new();
    push_padded(&mut s, year, 4);
    push_padded(&mut s, month_shown, 2);
    push_padded(&mut s, day_shown, 2);
    push_char(&mut s, '-');
    push_padded(&mut s, (now / 3600) % 24, 2);
    push_char(&mut s, ':');
    push_padded(&mut s, (now / 60) % 60, 2);
    push_char(&mut s, ':');
    push_padded(&mut s, now % 60, 2);
    assert(s@ =~= session_timestamp_text(now as nat));
    s
}

impl FixSessionState {
    /// The party that sends.
    pub closed spec fn sender(&self) -> Seq<char> {
        self.sender_comp_id@
    }

    /// The party that receives.
    pub closed spec fn target(&self) -> Seq<char> {
        self.target_comp_id@
    }

    /// The sequence number of the next message sent.
    pub closed spec fn outgoing(&self) -> u32 {
        self.outgoing_seq_num
    }

    /// The sequence number expected of the next message received.
    pub closed spec fn incoming(&self) -> u32 {
        self.incoming_seq_num
    }

    /// The status of the session.
    pub closed spec fn status_of(&self) -> SessionStatus {
        self.status
    }

    /// A disconnected session between two parties, with both sequence
    /// numbers at 1.
    pub fn new(sender_comp_id: String, target_comp_id: String) -> (r: Self)
        ensures
            r.sender() == sender_comp_id@,
            r.target() == target_comp_id@,
            r.outgoing() == 1,
            r.incoming() == 1,
            r.status_of() == SessionStatus::Disconnected,
    {
        FixSessionState {
            sender_comp_id,
            target_comp_id,
            outgoing_seq_num: 1,
            incoming_seq_num: 1,
            status: SessionStatus::Disconnected,
        }
    }

    /// The header of the next message sent: FIX 4.4, the parties, the
    /// outgoing sequence number and the time of sending.
    pub fn create_header(&self, msg_type: MessageType) -> (r: StandardHeader)
        ensures
            r.begin_string@ == fix44_text(),
            r.body_length == 0,
            r.msg_type == msg_type,
            r.sender_comp_id@ == self.sender(),
            r.target_comp_id@ == self.target(),
            r.msg_seq_num == self.outgoing(),
            exists|now: nat| r.sending_time@ == session_timestamp_text(now),
            r.poss_dup_flag is None,
            r.poss_resend is None,
            r.secure_data_len is None,
            r.secure_data is None,
    {
        StandardHeader {
            begin_string: fix44_string(),
            body_length: 0,
            msg_type,
            sender_comp_id: self.sender_comp_id.clone(),
            target_comp_id: self.target_comp_id.clone(),
            msg_seq_num: self.outgoing_seq_num,
            sending_time: self.get_utc_timestamp(),
            poss_dup_flag: None,
            poss_resend: None,
            secure_data_len: None,
            secure_data: None,
        }
    }

    /// The next message sent takes the next sequence number.
    pub fn increment_outgoing_seq_num(&mut self)
        requires
            old(self).outgoing() < u32::MAX,
        ensures
            final(self).outgoing() == old(self).outgoing() + 1,
            final(self).incoming() == old(self).incoming(),
            final(self).status_of() == old(self).status_of(),
            final(self).sender() == old(self).sender(),
            final(self).target() == old(self).target(),
    {
        self.outgoing_seq_num = self.outgoing_seq_num + 1;
    }

    /// The next message received takes the next sequence number.
    pub fn increment_incoming_seq_num(&mut self)
        requires
            old(self).incoming() < u32::MAX,
        ensures
            final(self).incoming() == old(self).incoming() + 1,
            final(self).outgoing() == old(self).outgoing(),
            final(self).status_of() == old(self).status_of(),
            final(self).sender() == old(self).sender(),
            final(self).target() == old(self).target(),
    {
        self.incoming_seq_num = self.incoming_seq_num + 1;
    }

    pub fn get_outgoing_seq_num(&self) -> (r: u32)
        ensures
            r == self.outgoing(),
    {
        self.outgoing_seq_num
    }

    pub fn get_incoming_seq_num(&self) -> (r: u32)
        ensures
            r == self.incoming(),
    {
        self.incoming_seq_num
    }

    pub fn set_outgoing_seq_num(&mut self, seq_num: u32)
        ensures
            final(self).outgoing() == seq_num,
            final(self).incoming() == old(self).incoming(),
            final(self).status_of() == old(self).status_of(),
            final(self).sender() == old(self).sender(),
            final(self).target() == old(self).target(),
    {
        self.outgoing_seq_num = seq_num;
    }

    pub fn set_incoming_seq_num(&mut self, seq_num: u32)
        ensures
            final(self).incoming() == seq_num,
            final(self).outgoing() == old(self).outgoing(),
            final(self).status_of() == old(self).status_of(),
            final(self).sender() == old(self).sender(),
            final(self).target() == old(self).target(),
    {
        self.incoming_seq_num = seq_num;
    }

    pub fn get_status(&self) -> (r: SessionStatus)
        ensures
            r == self.status_of(),
    {
        self.status
    }

    pub fn set_status(&mut self, status: SessionStatus)
        ensures
            final(self).status_of() == status,
            final(self).outgoing() == old(self).outgoing(),
            final(self).incoming() == old(self).incoming(),
            final(self).sender() == old(self).sender(),
            final(self).target() == old(self).target(),
    {
        self.status = status;
    }

    pub fn is_logged_on(&self) -> (r: bool)
        ensures
            r == (self.status_of() == SessionStatus::LoggedOn),
    {
        self.status == SessionStatus::LoggedOn
    }

    pub fn get_sender_comp_id(&self) -> (r: &str)
        ensures
            r@ == self.sender(),
    {
        self.sender_comp_id.as_str()
    }

    pub fn get_target_comp_id(&self) -> (r: &str)
        ensures
            r@ == self.target(),
    {
        self.target_comp_id.as_str()
    }

    /// Both sequence numbers start again at 1.
    pub fn reset_sequence_numbers(&mut self)
        ensures
            final(self).outgoing() == 1,
            final(self).incoming() == 1,
            final(self).status_of() == old(self).status_of(),
            final(self).sender() == old(self).sender(),
            final(self).target() == old(self).target(),
    {
        self.outgoing_seq_num = 1;
        self.incoming_seq_num = 1;
    }

    /// The sending time for now, from the system clock; a clock before the
    /// epoch reads as the epoch.
    fn get_utc_timestamp(&self) -> (r: String)
        ensures
            exists|now: nat| r@ == session_timestamp_text(now),
    {
        let now = match unix_secs() {
            Some(s) => s,
            None => 0,
        };
        timestamp_for(now)
    }
}

} // verus!
