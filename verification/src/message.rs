//! The record parser: one transcript line yields zero or one message.
//!
//! A line is tried against two shapes. The primary shape carries the full
//! record fields with a polymorphic `message.content` (a plain string or a
//! sequence of typed blocks); it qualifies only when the type is `user` or
//! `assistant` and the content resolves to non-blank text. A line that does
//! not qualify is retried against the legacy shape (top-level `type`,
//! `timestamp`, `content`), which qualifies when the type is `user` and the
//! content string is non-blank. Lines matching neither are dropped silently.

use vstd::prelude::*;
use vstd::string::*;
use crate::ext::{
    TextBlock, TextBlockV, json_msg_str_field, json_str_field, json_text_blocks,
    msg_str_field_of, str_field_of, text_blocks_of,
};
use crate::text::{non_blank, str_eq, str_non_blank};

verus! {

/// A message's content: a plain string, or a sequence of typed blocks.
pub enum Content {
    Text(String),
    Blocks(Vec<TextBlock>),
}

#[verifier::ext_equal]
pub ghost enum ContentV {
    Text(Seq<char>),
    Blocks(Seq<TextBlockV>),
}

impl DeepView for Content {
    type V = ContentV;

    open spec fn deep_view(&self) -> ContentV {
        match self {
            Content::Text(s) => ContentV::Text(s@),
            Content::Blocks(bs) => ContentV::Blocks(bs.deep_view()),
        }
    }
}

/// The `message` object of a record: a role and the polymorphic content.
pub struct MessageContent {
    pub role: Option<String>,
    pub content: Option<Content>,
}

#[verifier::ext_equal]
pub ghost struct MessageContentV {
    pub role: Option<Seq<char>>,
    pub content: Option<ContentV>,
}

impl DeepView for MessageContent {
    type V = MessageContentV;

    open spec fn deep_view(&self) -> MessageContentV {
        MessageContentV { role: self.role.deep_view(), content: self.content.deep_view() }
    }
}

/// One normalized transcript record.
pub struct Message {
    pub msg_type: Option<String>,
    pub uuid: Option<String>,
    pub parent_uuid: Option<String>,
    pub timestamp: Option<String>,
    pub session_id: Option<String>,
    pub message: Option<MessageContent>,
}

#[verifier::ext_equal]
pub ghost struct MessageV {
    pub msg_type: Option<Seq<char>>,
    pub uuid: Option<Seq<char>>,
    pub parent_uuid: Option<Seq<char>>,
    pub timestamp: Option<Seq<char>>,
    pub session_id: Option<Seq<char>>,
    pub message: Option<MessageContentV>,
}

impl DeepView for Message {
    type V = MessageV;

    open spec fn deep_view(&self) -> MessageV {
        MessageV {
            msg_type: self.msg_type.deep_view(),
            uuid: self.uuid.deep_view(),
            parent_uuid: self.parent_uuid.deep_view(),
            timestamp: self.timestamp.deep_view(),
            session_id: self.session_id.deep_view(),
            message: self.message.deep_view(),
        }
    }
}

/// A block that counts as displayable text: tagged `text` with a non-blank
/// string payload.
pub open spec fn text_block_ok(b: TextBlockV) -> bool {
    b.kind == "text"@ && (b.text matches Some(t) && non_blank(t))
}

/// Some block of the sequence counts as displayable text.
pub open spec fn any_text_block(bs: Seq<TextBlockV>) -> bool {
    exists|i: int| 0 <= i < bs.len() && text_block_ok(bs[i])
}

/// The qualifying-message predicate on content: a non-blank string, or at
/// least one non-blank `text` block.
pub open spec fn spec_has_text_content(m: Option<MessageContentV>) -> bool {
    match m {
        None => false,
        Some(mc) => match mc.content {
            None => false,
            Some(ContentV::Text(s)) => non_blank(s),
            Some(ContentV::Blocks(bs)) => any_text_block(bs),
        },
    }
}

/// Whether the message carries non-empty text content.
#[verifier::loop_isolation(false)]
pub fn has_text_content(message: &Option<MessageContent>) -> (r: bool)
    ensures
        r == spec_has_text_content(message.deep_view()),
{
    let mc = match message {
        Some(mc) => mc,
        None => {
            return false;
        },
    };
    match &mc.content {
        None => false,
        Some(Content::Text(s)) => str_non_blank(s.as_str()),
        Some(Content::Blocks(bs)) => {
            let n = bs.len();
            let mut i: usize = 0;
            while i < n
                invariant
                    n == bs@.len(),
                    i <= n,
                    forall|j: int| 0 <= j < i ==> !text_block_ok(bs.deep_view()[j]),
                decreases n - i,
            {
                let b = &bs[i];
                if str_eq(b.kind.as_str(), "text") {
                    match &b.text {
                        Some(t) => {
                            if str_non_blank(t.as_str()) {
                                proof {
                                    let ghost bsv = bs.deep_view();
                                    assert((i as int) < bsv.len() && text_block_ok(
                                        bsv[i as int],
                                    ));
                                    assert(any_text_block(bsv));
                                }
                                return true;
                            }
                        },
                        None => {},
                    }
                }
                assert(!text_block_ok(bs.deep_view()[i as int]));
                i += 1;
            }
            false
        },
    }
}

/// A block that contributes to flattened text: tagged `text` with a string
/// payload, blank or not.
pub open spec fn text_item_sel(b: TextBlockV) -> bool {
    b.kind == "text"@ && b.text is Some
}

/// Some block of the sequence contributes to flattened text.
pub open spec fn has_text_item(bs: Seq<TextBlockV>) -> bool
    decreases bs.len(),
{
    if bs.len() == 0 {
        false
    } else {
        has_text_item(bs.drop_last()) || text_item_sel(bs.last())
    }
}

/// The text payloads of the `text` blocks, joined by single newlines.
pub open spec fn joined_texts(bs: Seq<TextBlockV>) -> Seq<char>
    decreases bs.len(),
{
    if bs.len() == 0 {
        Seq::empty()
    } else {
        let front = bs.drop_last();
        let r = joined_texts(front);
        match bs.last().text {
            Some(t) => {
                if bs.last().kind == "text"@ {
                    if has_text_item(front) {
                        r + seq!['\n'] + t
                    } else {
                        t
                    }
                } else {
                    r
                }
            },
            None => r,
        }
    }
}

/// A sequence with no contributing block flattens to empty text.
pub proof fn lemma_joined_texts_empty(bs: Seq<TextBlockV>)
    requires
        !has_text_item(bs),
    ensures
        joined_texts(bs) == Seq::<char>::empty(),
    decreases bs.len(),
{
    if bs.len() > 0 {
        lemma_joined_texts_empty(bs.drop_last());
    }
}

/// The flattened text of a message: the string content verbatim, or the
/// joined text blocks, or empty.
pub open spec fn spec_extract_text(m: Option<MessageContentV>) -> Seq<char> {
    match m {
        None => Seq::empty(),
        Some(mc) => match mc.content {
            None => Seq::empty(),
            Some(ContentV::Text(s)) => s,
            Some(ContentV::Blocks(bs)) => joined_texts(bs),
        },
    }
}

/// Flatten a message's content to plain text.
#[verifier::loop_isolation(false)]
pub fn extract_text_content(message: &Option<MessageContent>) -> (r: String)
    ensures
        r@ == spec_extract_text(message.deep_view()),
{
    let mc = match message {
        Some(mc) => mc,
        None => {
            return String::new();
        },
    };
    match &mc.content {
        None => String::new(),
        Some(Content::Text(s)) => s.clone(),
        Some(Content::Blocks(bs)) => {
            let ghost bsv = bs.deep_view();
            let n = bs.len();
            let mut out = String::new();
            let mut first: bool = true;
            let mut i: usize = 0;
            proof {
                assert(bsv.take(0) =~= Seq::<TextBlockV>::empty());
            }
            while i < n
                invariant
                    i <= n,
                    out@ == joined_texts(bsv.take(i as int)),
                    first == !has_text_item(bsv.take(i as int)),
                decreases n - i,
            {
                proof {
                    assert(bsv.take(i + 1 as int).drop_last() =~= bsv.take(i as int));
                    assert(bsv.take(i + 1 as int).last() == bsv[i as int]);
                    reveal_strlit("\n");
                    assert(("\n")@ =~= seq!['\n']);
                }
                let b = &bs[i];
                if str_eq(b.kind.as_str(), "text") {
                    match &b.text {
                        Some(t) => {
                            if !first {
                                out.append("\n");
                            } else {
                                proof {
                                    lemma_joined_texts_empty(bsv.take(i as int));
                                }
                            }
                            out.append(t.as_str());
                            first = false;
                            assert(out@ =~= joined_texts(bsv.take(i + 1 as int)));
                        },
                        None => {},
                    }
                }
                i += 1;
            }
            proof {
                assert(bsv.take(n as int) =~= bsv);
            }
            out
        },
    }
}

/// The content a qualifying primary-shape line carries, by the priority the
/// record parser uses: a string wins over an array; anything else is absent.
pub open spec fn content_of(line: Seq<char>) -> Option<ContentV> {
    match msg_str_field_of(line, "content"@) {
        Some(s) => Some(ContentV::Text(s)),
        None => match text_blocks_of(line) {
            Some(bs) => Some(ContentV::Blocks(bs)),
            None => None,
        },
    }
}

/// The `message` object the primary shape reads from a line.
pub open spec fn line_mc(line: Seq<char>) -> MessageContentV {
    MessageContentV { role: msg_str_field_of(line, "role"@), content: content_of(line) }
}

pub open spec fn is_user_or_assistant(line: Seq<char>) -> bool {
    str_field_of(line, "type"@) == Some("user"@) || str_field_of(line, "type"@) == Some(
        "assistant"@,
    )
}

/// The primary shape qualifies: user/assistant type with non-blank text.
pub open spec fn qualifies_primary(line: Seq<char>) -> bool {
    is_user_or_assistant(line) && spec_has_text_content(Some(line_mc(line)))
}

/// The legacy shape qualifies: a `user` line whose top-level `content`
/// string is non-blank, tried only when the primary shape did not qualify.
pub open spec fn qualifies_secondary(line: Seq<char>) -> bool {
    &&& !qualifies_primary(line)
    &&& str_field_of(line, "type"@) == Some("user"@)
    &&& (str_field_of(line, "content"@) matches Some(c) && non_blank(c))
}

pub open spec fn primary_message_of(line: Seq<char>) -> MessageV {
    MessageV {
        msg_type: str_field_of(line, "type"@),
        uuid: str_field_of(line, "uuid"@),
        parent_uuid: str_field_of(line, "parentUuid"@),
        timestamp: str_field_of(line, "timestamp"@),
        session_id: str_field_of(line, "sessionId"@),
        message: Some(line_mc(line)),
    }
}

pub open spec fn secondary_message_of(line: Seq<char>) -> MessageV {
    MessageV {
        msg_type: Some("user"@),
        uuid: None,
        parent_uuid: None,
        timestamp: str_field_of(line, "timestamp"@),
        session_id: None,
        message: Some(
            MessageContentV {
                role: Some("user"@),
                content: Some(
                    ContentV::Text(
                        match str_field_of(line, "content"@) {
                            Some(c) => c,
                            None => Seq::empty(),
                        },
                    ),
                ),
            },
        ),
    }
}

/// The zero-or-one message a line yields: blank lines and lines matching
/// neither shape yield none.
pub open spec fn message_of_line(line: Seq<char>) -> Option<MessageV> {
    if !non_blank(line) {
        None
    } else if qualifies_primary(line) {
        Some(primary_message_of(line))
    } else if qualifies_secondary(line) {
        Some(secondary_message_of(line))
    } else {
        None
    }
}

/// The ordered messages of a whole transcript, in file line order.
pub open spec fn messages_of(lines: Seq<Seq<char>>) -> Seq<MessageV>
    decreases lines.len(),
{
    if lines.len() == 0 {
        Seq::empty()
    } else {
        messages_of(lines.drop_last()) + match message_of_line(lines.last()) {
            Some(m) => seq![m],
            None => Seq::empty(),
        }
    }
}

/// Decode one line into its zero-or-one normalized message.
pub fn parse_line_message(line: &str) -> (r: Option<Message>)
    ensures
        r.deep_view() == message_of_line(line@),
{
    if !str_non_blank(line) {
        return None;
    }
    let t = json_str_field(line, "type");
    let is_ua = match &t {
        Some(s) => str_eq(s.as_str(), "user") || str_eq(s.as_str(), "assistant"),
        None => false,
    };
    if is_ua {
        let content: Option<Content> = match json_msg_str_field(line, "content") {
            Some(s) => Some(Content::Text(s)),
            None => match json_text_blocks(line) {
                Some(bs) => Some(Content::Blocks(bs)),
                None => None,
            },
        };
        let mc = Some(MessageContent { role: json_msg_str_field(line, "role"), content });
        if has_text_content(&mc) {
            return Some(
                Message {
                    msg_type: t,
                    uuid: json_str_field(line, "uuid"),
                    parent_uuid: json_str_field(line, "parentUuid"),
                    timestamp: json_str_field(line, "timestamp"),
                    session_id: json_str_field(line, "sessionId"),
                    message: mc,
                },
            );
        }
    }
    let is_user = match &t {
        Some(s) => str_eq(s.as_str(), "user"),
        None => false,
    };
    if is_user {
        if let Some(c) = json_str_field(line, "content") {
            if str_non_blank(c.as_str()) {
                return Some(
                    Message {
                        msg_type: t,
                        uuid: None,
                        parent_uuid: None,
                        timestamp: json_str_field(line, "timestamp"),
                        session_id: None,
                        message: Some(
                            MessageContent {
                                role: Some(String::from_str("user")),
                                content: Some(Content::Text(c)),
                            },
                        ),
                    },
                );
            }
        }
    }
    None
}

/// Decode a whole transcript: every qualifying message, in line order.
pub fn get_messages(lines: &Vec<String>) -> (r: Vec<Message>)
    ensures
        r.deep_view() == messages_of(lines.deep_view()),
{
    let n = lines.len();
    let mut out: Vec<Message> = Vec::new();
    let mut i: usize = 0;
    while i < n
        invariant
            n == lines@.len(),
            i <= n,
            out.deep_view() == messages_of(lines.deep_view().take(i as int)),
        decreases n - i,
    {
        proof {
            assert(lines.deep_view().take(i + 1 as int).drop_last() =~= lines.deep_view().take(
                i as int,
            ));
            assert(lines.deep_view().take(i + 1 as int).last() == lines.deep_view()[i as int]);
        }
        match parse_line_message(lines[i].as_str()) {
            Some(m) => {
                out.push(m);
                assert(out.deep_view() =~= messages_of(lines.deep_view().take(i + 1 as int)));
            },
            None => {
                assert(out.deep_view() =~= messages_of(lines.deep_view().take(i + 1 as int)));
            },
        }
        i += 1;
    }
    proof {
        assert(lines.deep_view().take(n as int) =~= lines.deep_view());
    }
    out
}

} // verus!
