//! The unit of application data exchanged on a connection.

use vstd::prelude::*;

verus! {

/// The payload of a message: one string.
#[derive(Clone, Debug, PartialEq, Eq)]
pub struct MessageContent {
    pub contents: String,
}

/// One application message.
///
/// `sender` and `recipient` are carried as given and never checked. A message
/// without content is different from one whose content is the empty string.
#[derive(Clone, Debug, PartialEq, Eq)]
pub struct Message {
    pub sender: u64,
    pub recipient: u64,
    pub content: Option<MessageContent>,
}

/// The mathematical value of a `Message`.
pub struct MessageView {
    pub sender: u64,
    pub recipient: u64,
    pub content: Option<Seq<char>>,
}

impl View for MessageContent {
    type V = Seq<char>;

    open spec fn view(&self) -> Seq<char> {
        self.contents@
    }
}

impl View for Message {
    type V = MessageView;

    open spec fn view(&self) -> MessageView {
        MessageView {
            sender: self.sender,
            recipient: self.recipient,
            content: match self.content {
                Some(c) => Some(c@),
                None => None,
            },
        }
    }
}

impl MessageView {
    /// The message with every field unset.
    pub open spec fn empty() -> MessageView {
        MessageView { sender: 0, recipient: 0, content: None }
    }
}

impl Message {
    /// A message with both identifiers unset that carries `contents`.
    pub fn with_contents(contents: String) -> (m: Message)
        ensures
            m@ == (MessageView { sender: 0, recipient: 0, content: Some(contents@) }),
    {
        Message { sender: 0, recipient: 0, content: Some(MessageContent { contents }) }
    }

    /// The string to send back for this message: its contents, or the
    /// empty string where it has no content.
    pub fn reply_contents(&self) -> (reply: String)
        ensures
            reply@ == spec_reply_contents(self@),
    {
        match &self.content {
            Some(c) => c.contents.clone(),
            None => String::new(),
        }
    }
}

/// What `Message::reply_contents` returns, over views.
pub open spec fn spec_reply_contents(m: MessageView) -> Seq<char> {
    match m.content {
        Some(s) => s,
        None => Seq::<char>::empty(),
    }
}

impl Default for Message {
    fn default() -> (m: Message)
        ensures
            m@ == MessageView::empty(),
    {
        Message { sender: 0, recipient: 0, content: None }
    }
}

} // verus!
