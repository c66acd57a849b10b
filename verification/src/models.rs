//! The records of the board: a message as it is posted and as it is kept.

use vstd::prelude::*;

verus! {

/// A message as a client posts it.
#[derive(Debug, PartialEq, Eq)]
pub struct NewMessage {
    pub username: String,
    pub message: String,
}

/// A message as the store keeps it, with the identifier and the timestamp
/// that the store gave it.
#[derive(Debug, PartialEq, Eq)]
pub struct Message {
    pub id: i32,
    pub username: String,
    pub message: String,
    pub timestamp: i64,
}

pub ghost struct NewMessageView {
    pub username: Seq<char>,
    pub message: Seq<char>,
}

pub ghost struct MessageView {
    pub id: int,
    pub username: Seq<char>,
    pub message: Seq<char>,
    pub timestamp: int,
}

impl View for NewMessage {
    type V = NewMessageView;

    open spec fn view(&self) -> NewMessageView {
        NewMessageView { username: self.username@, message: self.message@ }
    }
}

impl View for Message {
    type V = MessageView;

    open spec fn view(&self) -> MessageView {
        MessageView {
            id: self.id as int,
            username: self.username@,
            message: self.message@,
            timestamp: self.timestamp as int,
        }
    }
}

impl Clone for NewMessage {
    fn clone(&self) -> (r: Self)
        ensures
            r@ == self@,
    {
        NewMessage { username: self.username.clone(), message: self.message.clone() }
    }
}

impl Clone for Message {
    fn clone(&self) -> (r: Self)
        ensures
            r@ == self@,
    {
        Message {
            id: self.id,
            username: self.username.clone(),
            message: self.message.clone(),
            timestamp: self.timestamp,
        }
    }
}

/// The views of a run of stored messages, in the same order.
pub open spec fn rows_view(rows: Seq<Message>) -> Seq<MessageView> {
    Seq::new(rows.len(), |i: int| rows[i]@)
}

} // verus!
