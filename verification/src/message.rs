use vstd::prelude::*;

verus! {

/// What one node sends another.
#[derive(Debug, PartialEq, Eq)]
pub enum Message {
    /// A node announces itself by its identifier.
    Handshake { id: String },
    /// A line of text written by the user of node `from`.
    Text { from: String, content: String },
}

/// The mathematical value of a [`Message`]: its strings as character sequences.
pub enum MessageView {
    Handshake { id: Seq<char> },
    Text { from: Seq<char>, content: Seq<char> },
}

impl View for Message {
    type V = MessageView;

    open spec fn view(&self) -> MessageView {
        match self {
            Message::Handshake { id } => MessageView::Handshake { id: id@ },
            Message::Text { from, content } => MessageView::Text { from: from@, content: content@ },
        }
    }
}

impl Clone for Message {
    fn clone(&self) -> (copy: Self)
        ensures
            copy@ == self@,
    {
        match self {
            Message::Handshake { id } => Message::Handshake { id: id.clone() },
            Message::Text { from, content } => Message::Text {
                from: from.clone(),
                content: content.clone(),
            },
        }
    }
}

/// The line that a node prints for a message it has received.
pub open spec fn printed_line_of(m: MessageView) -> Seq<char> {
    match m {
        MessageView::Handshake { id } => "Received Handshake with ID: "@ + id,
        MessageView::Text { from, content } => "Received Message from "@ + from + ": "@ + content,
    }
}

impl Message {
    /// The line that a node prints for this message when it receives it.
    pub fn printed_line(&self) -> (line: String)
        ensures
            line@ == printed_line_of(self@),
    {
        match self {
            Message::Handshake { id } => {
                let mut line = String::from_str("Received Handshake with ID: ");
                line.append(id.as_str());
                line
            },
            Message::Text { from, content } => {
                let mut line = String::from_str("Received Message from ");
                line.append(from.as_str());
                line.append(": ");
                line.append(content.as_str());
                line
            },
        }
    }
}

/// The printed line of a handshake is the fixed 28-character prefix followed by
/// the whole identifier; that of a text is the fixed 22-character prefix, the whole
/// sender, `": "` and the whole content, nothing cut and nothing added.
pub proof fn lemma_printed_line_holds_whole_fields(m: MessageView)
    ensures
        m matches MessageView::Handshake { id } ==> {
            let line = printed_line_of(m);
            &&& line.len() == 28 + id.len()
            &&& line.take(28) == "Received Handshake with ID: "@
            &&& line.skip(28) == id
        },
        m matches MessageView::Text { from, content } ==> {
            let line = printed_line_of(m);
            &&& line.len() == 24 + from.len() + content.len()
            &&& line.take(22) == "Received Message from "@
            &&& line.subrange(22, 22 + from.len() as int) == from
            &&& line.subrange(22 + from.len() as int, 24 + from.len() as int) == ": "@
            &&& line.skip(24 + from.len() as int) == content
        },
{
    reveal_strlit("Received Handshake with ID: ");
    reveal_strlit("Received Message from ");
    reveal_strlit(": ");
    match m {
        MessageView::Handshake { id } => {
            let line = printed_line_of(m);
            assert(line.take(28) =~= "Received Handshake with ID: "@);
            assert(line.skip(28) =~= id);
        },
        MessageView::Text { from, content } => {
            let line = printed_line_of(m);
            assert(line.take(22) =~= "Received Message from "@);
            assert(line.subrange(22, 22 + from.len() as int) =~= from);
            assert(line.subrange(22 + from.len() as int, 24 + from.len() as int) =~= ": "@);
            assert(line.skip(24 + from.len() as int) =~= content);
        },
    }
}

} // verus!
