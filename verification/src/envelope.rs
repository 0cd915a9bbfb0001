//! The tagged envelope exchanged on the wire, and its mathematical model.

use vstd::prelude::*;

verus! {

/// Mathematical model of an envelope: every field is a sequence of
/// characters, so contracts can speak of contents independently of
/// allocation.  `MessageType@` yields this model.
pub enum Envelope {
    ChatMessage { sender: Seq<char>, content: Seq<char> },
    Command { name: Seq<char>, args: Seq<Seq<char>> },
    SystemMessage { text: Seq<char> },
}

/// The tagged variant carried inside a transport text frame: a chat line,
/// an interactive command, or a system notice (also the credential carrier
/// during the handshake).
#[derive(Debug, PartialEq)]
pub enum MessageType {
    ChatMessage { sender: String, content: String },
    Command { name: String, args: Vec<String> },
    SystemMessage(String),
}

impl View for MessageType {
    type V = Envelope;

    open spec fn view(&self) -> Envelope {
        match self {
            MessageType::ChatMessage { sender, content } => Envelope::ChatMessage {
                sender: sender@,
                content: content@,
            },
            MessageType::Command { name, args } => Envelope::Command {
                name: name@,
                args: args.deep_view(),
            },
            MessageType::SystemMessage(text) => Envelope::SystemMessage { text: text@ },
        }
    }
}

impl DeepView for MessageType {
    type V = Envelope;

    open spec fn deep_view(&self) -> Envelope {
        self.view()
    }
}

impl Clone for MessageType {
    /// Cloning an envelope preserves its model.
    fn clone(&self) -> (res: Self)
        ensures
            res@ == self@,
    {
        match self {
            MessageType::ChatMessage { sender, content } => MessageType::ChatMessage {
                sender: sender.clone(),
                content: content.clone(),
            },
            MessageType::Command { name, args } => {
                let cloned_args = args.clone();
                proof {
                    assert(cloned_args.deep_view() =~= args.deep_view());
                }
                MessageType::Command { name: name.clone(), args: cloned_args }
            },
            MessageType::SystemMessage(text) => MessageType::SystemMessage(text.clone()),
        }
    }
}

} // verus!
