//! The parse state machine: tokens in, message events out.
use vstd::prelude::*;

use crate::raw_text::{
    contains_substring, copy_range, has_char, has_substring, pad_trimmed, same_bytes, trim_pad,
    trim_white,
};

verus! {

/// What an attachment holds, read from the suffix of its icon's class.
#[derive(Debug, PartialEq, Eq, Structural, Copy, Clone)]
pub enum MessageAttachmentKind {
    Doc,
    Photo,
    Video,
    Audio,
    Sticker,
    Location,
    Wall,
}

/// One semantic unit of a message, handed to the reducer in document order.
#[derive(Debug)]
pub enum MessageEvent {
    /// The start of a message; the value is its forwarding depth (0 at top level).
    Start(u32),
    FullNameExtracted(String),
    ShortNameExtracted(String),
    DateExtracted(String),
    BodyPartExtracted(String),
    WallPartExtracted(String),
    RawAttachmentPartExtracted(String),
    AttachmentExtracted {
        kind: MessageAttachmentKind,
        url: String,
        vk_obj: String,
        description: String,
    },
}

/// The reducer's verdict on an event.
pub enum EventResult<A> {
    /// Keep delivering events.
    Consumed(A),
    /// Drop the rest of the current message and everything forwarded inside it.
    SkipMessage(A),
}

/// A fatal inconsistency in the markup.
#[derive(Debug, PartialEq, Eq, Structural, Copy, Clone)]
pub enum ParseError {
    /// An attachment icon whose class ends in no known suffix.
    UnsupportedAttachment,
    /// A handle element with no text to strip the leading marker from.
    EmptyHandle,
    /// Forwarded messages nested deeper than a `u32` can count.
    NestingTooDeep,
    /// An element that lacks the attribute the reader needs from it: the `alt`
    /// text of a pictograph or the `href` of an attachment link.
    MissingAttribute,
}

/// An element as the tokenizer reports it: its name, its raw attribute bytes,
/// and the decoded values of the two attributes the reader looks up.
pub struct Tag {
    pub name: Vec<u8>,
    pub attrs: Vec<u8>,
    pub alt: Option<String>,
    pub href: Option<String>,
}

/// A text node, in its raw form and with entities decoded.
pub struct TextToken {
    pub escaped: String,
    pub unescaped: String,
}

/// One lexical token of the markup.
pub enum Token {
    Start(Tag),
    Empty(Tag),
    Text(TextToken),
    End(Vec<u8>),
    Eof,
}

/// The element names the reader reacts to.
#[derive(PartialEq, Eq, Structural, Copy, Clone)]
pub enum TagName {
    Hr,
    Div,
    Bold,
    Anchor,
    Img,
    Pre,
    Br,
}

/// The attribute fragments the reader tells containers apart by.
#[derive(PartialEq, Eq, Structural, Copy, Clone)]
pub enum ClassMark {
    MsgItem,
    MsgBody,
    Emoji,
    Attachments,
    Attachment,
    AttHead,
    AttIcon,
    WallText,
    Forwarded,
}

pub open spec fn name_bytes(n: TagName) -> Seq<u8> {
    match n {
        TagName::Hr => seq![104u8, 114u8],  // hr
        TagName::Div => seq![100u8, 105u8, 118u8],  // div
        TagName::Bold => seq![98u8],  // b
        TagName::Anchor => seq![97u8],  // a
        TagName::Img => seq![105u8, 109u8, 103u8],  // img
        TagName::Pre => seq![112u8, 114u8, 101u8],  // pre
        TagName::Br => seq![98u8, 114u8],  // br
    }
}

pub open spec fn mark_bytes(c: ClassMark) -> Seq<u8> {
    match c {
        ClassMark::MsgItem => seq![34u8, 109u8, 115u8, 103u8, 95u8, 105u8, 116u8, 101u8, 109u8, 34u8],  // "msg_item"
        ClassMark::MsgBody => seq![34u8, 109u8, 115u8, 103u8, 95u8, 98u8, 111u8, 100u8, 121u8, 34u8],  // "msg_body"
        ClassMark::Emoji => seq![34u8, 101u8, 109u8, 111u8, 106u8, 105u8, 34u8],  // "emoji"
        ClassMark::Attachments => seq![34u8, 97u8, 116u8, 116u8, 97u8, 99u8, 109u8, 101u8, 110u8, 116u8, 115u8, 34u8],  // "attacments"
        ClassMark::Attachment => seq![34u8, 97u8, 116u8, 116u8, 97u8, 99u8, 109u8, 101u8, 110u8, 116u8, 34u8],  // "attacment"
        ClassMark::AttHead => seq![34u8, 97u8, 116u8, 116u8, 95u8, 104u8, 101u8, 97u8, 100u8, 34u8],  // "att_head"
        ClassMark::AttIcon => seq![97u8, 116u8, 116u8, 95u8, 105u8, 99u8, 111u8],  // att_ico
        ClassMark::WallText => seq![34u8, 97u8, 116u8, 116u8, 95u8, 119u8, 97u8, 108u8, 108u8, 95u8, 116u8, 101u8, 120u8, 116u8, 34u8],  // "att_wall_text"
        ClassMark::Forwarded => seq![34u8, 102u8, 119u8, 100u8, 34u8],  // "fwd"
    }
}

fn name_vec(n: TagName) -> (r: Vec<u8>)
    ensures
        r@ == name_bytes(n),
{
    let r = match n {
        TagName::Hr => vec![104u8, 114u8],  // hr
        TagName::Div => vec![100u8, 105u8, 118u8],  // div
        TagName::Bold => vec![98u8],  // b
        TagName::Anchor => vec![97u8],  // a
        TagName::Img => vec![105u8, 109u8, 103u8],  // img
        TagName::Pre => vec![112u8, 114u8, 101u8],  // pre
        TagName::Br => vec![98u8, 114u8],  // br
    };
    assert(r@ =~= name_bytes(n));
    r
}

fn mark_vec(c: ClassMark) -> (r: Vec<u8>)
    ensures
        r@ == mark_bytes(c),
{
    let r = match c {
        ClassMark::MsgItem => vec![34u8, 109u8, 115u8, 103u8, 95u8, 105u8, 116u8, 101u8, 109u8, 34u8],  // "msg_item"
        ClassMark::MsgBody => vec![34u8, 109u8, 115u8, 103u8, 95u8, 98u8, 111u8, 100u8, 121u8, 34u8],  // "msg_body"
        ClassMark::Emoji => vec![34u8, 101u8, 109u8, 111u8, 106u8, 105u8, 34u8],  // "emoji"
        ClassMark::Attachments => vec![34u8, 97u8, 116u8, 116u8, 97u8, 99u8, 109u8, 101u8, 110u8, 116u8, 115u8, 34u8],  // "attacments"
        ClassMark::Attachment => vec![34u8, 97u8, 116u8, 116u8, 97u8, 99u8, 109u8, 101u8, 110u8, 116u8, 34u8],  // "attacment"
        ClassMark::AttHead => vec![34u8, 97u8, 116u8, 116u8, 95u8, 104u8, 101u8, 97u8, 100u8, 34u8],  // "att_head"
        ClassMark::AttIcon => vec![97u8, 116u8, 116u8, 95u8, 105u8, 99u8, 111u8],  // att_ico
        ClassMark::WallText => vec![34u8, 97u8, 116u8, 116u8, 95u8, 119u8, 97u8, 108u8, 108u8, 95u8, 116u8, 101u8, 120u8, 116u8, 34u8],  // "att_wall_text"
        ClassMark::Forwarded => vec![34u8, 102u8, 119u8, 100u8, 34u8],  // "fwd"
    };
    assert(r@ =~= mark_bytes(c));
    r
}

/// What the reader is waiting for next.
#[derive(Debug, PartialEq, Eq, Structural, Copy, Clone)]
pub enum ParseState {
    Prelude,
    NoMessage,
    MessageStart,
    MessageFullNameStart,
    MessageFullNameExtracted,
    MessageShortNameStart,
    MessageShortNameExtracted,
    MessageDateStart,
    MessageDateExtracted,
    MessageBodyStart,
    MessageBodyExtracted,
    MessageAttachmentsPrelude,
    MessageAttachmentStart,
    MessageAttachmentHeadStart(MessageAttachmentKind),
    /// Waiting for the caption of an attachment whose link is held in `url`.
    MessageAttachmentBodyStart(MessageAttachmentKind),
    MessageAttachmentWallBodyStart,
    MessageAttachmentRawBodyStart,
    MessageAttachmentEpilogue,
    MessageForwardedStart,
    MessageChatActionStart,
}

/// The whole state of one parse run.
pub struct ParseStateHolder {
    pub at: ParseState,
    /// Forwarding depth of the current message.
    pub msg_level: u32,
    /// Whether the first of the two closing tags of the current forwarding
    /// level has been seen.
    pub fwd_closed: bool,
    /// The depth at which the consumer last asked to skip, if it did.
    pub skip_level: Option<u32>,
    /// The link of the attachment being read.
    pub url: String,
}

/// The mathematical model of a `ParseStateHolder`.
pub struct HolderView {
    pub at: ParseState,
    pub msg_level: u32,
    pub fwd_closed: bool,
    pub url: Seq<char>,
}

/// The mathematical model of a `MessageEvent`.
pub enum EventView {
    Start(u32),
    FullName(Seq<char>),
    ShortName(Seq<char>),
    Date(Seq<char>),
    BodyPart(Seq<char>),
    WallPart(Seq<char>),
    RawPart(Seq<char>),
    Attachment { kind: MessageAttachmentKind, url: Seq<char>, vk_obj: Seq<char>, description: Seq<char> },
}

impl MessageEvent {
    pub open spec fn view(&self) -> EventView {
        match self {
            MessageEvent::Start(l) => EventView::Start(*l),
            MessageEvent::FullNameExtracted(s) => EventView::FullName(s@),
            MessageEvent::ShortNameExtracted(s) => EventView::ShortName(s@),
            MessageEvent::DateExtracted(s) => EventView::Date(s@),
            MessageEvent::BodyPartExtracted(s) => EventView::BodyPart(s@),
            MessageEvent::WallPartExtracted(s) => EventView::WallPart(s@),
            MessageEvent::RawAttachmentPartExtracted(s) => EventView::RawPart(s@),
            MessageEvent::AttachmentExtracted { kind, url, vk_obj, description } => EventView::Attachment {
                kind: *kind,
                url: url@,
                vk_obj: vk_obj@,
                description: description@,
            },
        }
    }
}

pub open spec fn event_option_view(e: Option<MessageEvent>) -> Option<EventView> {
    match e {
        Some(e) => Some(e@),
        None => None,
    }
}

impl ParseStateHolder {
    pub open spec fn view(&self) -> HolderView {
        HolderView {
            at: self.at,
            msg_level: self.msg_level,
            fwd_closed: self.fwd_closed,
            url: self.url@,
        }
    }
}

/// The text with every `[id<digits>|<name>]` mention replaced by its name.
pub uninterp spec fn mentions_replaced(s: Seq<char>) -> Seq<char>;


/// The state the reader starts in.
pub open spec fn initial_view() -> HolderView {
    HolderView {
        at: ParseState::Prelude,
        msg_level: 0,
        fwd_closed: false,
        url: Seq::empty(),
    }
}

pub open spec fn is_tag(name: Seq<u8>, n: TagName) -> bool {
    name == name_bytes(n)
}

pub open spec fn tag_has(t: Tag, n: TagName, c: ClassMark) -> bool {
    is_tag(t.name@, n) && has_substring(t.attrs@, mark_bytes(c))
}

/// The attachment kind that the four bytes before the closing quote of an icon's
/// attributes name.
pub open spec fn icon_kind(attrs: Seq<u8>) -> Option<MessageAttachmentKind> {
    if attrs.len() < 5 {
        None
    } else {
        let sig = attrs.subrange(attrs.len() - 5, attrs.len() - 1);
        if sig == seq![95u8, 100u8, 111u8, 99u8] {  // _doc
            Some(MessageAttachmentKind::Doc)
        } else if sig == seq![117u8, 100u8, 105u8, 111u8] {  // udio
            Some(MessageAttachmentKind::Audio)
        } else if sig == seq![105u8, 100u8, 101u8, 111u8] {  // ideo
            Some(MessageAttachmentKind::Video)
        } else if sig == seq![104u8, 111u8, 116u8, 111u8] {  // hoto
            Some(MessageAttachmentKind::Photo)
        } else if sig == seq![99u8, 107u8, 101u8, 114u8] {  // cker
            Some(MessageAttachmentKind::Sticker)
        } else if sig == seq![95u8, 103u8, 101u8, 111u8] {  // _geo
            Some(MessageAttachmentKind::Location)
        } else if sig == seq![119u8, 97u8, 108u8, 108u8] {  // wall
            Some(MessageAttachmentKind::Wall)
        } else {
            None
        }
    }
}

/// Position of the first `]` in `s`, or its length if there is none.
pub open spec fn close_pos(s: Seq<char>) -> nat
    decreases s.len(),
{
    if s.len() == 0 || s[0] == ']' {
        0
    } else {
        1 + close_pos(s.drop_first())
    }
}

/// A caption split into the bracketed object identifier it starts with, if any,
/// and the description that follows.
pub open spec fn caption_parts(info: Seq<char>) -> (Seq<char>, Seq<char>) {
    if info.len() > 0 && info[0] == '[' {
        let rest = info.drop_first();
        let p = close_pos(rest);
        if p < rest.len() {
            (rest.take(p as int), trim_white(rest.skip(p + 1int)))
        } else {
            (rest, Seq::empty())
        }
    } else {
        (Seq::empty(), info)
    }
}

/// The body fragment a text node yields, if any.
pub open spec fn body_text(u: Seq<char>) -> Option<Seq<char>> {
    if u.contains('[') {
        Some(mentions_replaced(u))
    } else if u.len() > 0 {
        Some(u)
    } else {
        None
    }
}

pub open spec fn goto(h: HolderView, at: ParseState) -> HolderView {
    HolderView { at, ..h }
}

pub type Step = Result<(HolderView, Option<EventView>), ParseError>;

/// Transition on an opening tag.
pub open spec fn on_start(h: HolderView, t: Tag) -> Step {
    let s = h.at;
    if s == ParseState::Prelude && is_tag(t.name@, TagName::Hr) {
        Ok((goto(h, ParseState::NoMessage), None))
    } else if (s == ParseState::NoMessage || s == ParseState::MessageBodyExtracted) && tag_has(t, TagName::Div, ClassMark::MsgItem) {
        Ok((goto(h, ParseState::MessageStart), Some(EventView::Start(h.msg_level))))
    } else if s == ParseState::MessageStart && is_tag(t.name@, TagName::Bold) {
        Ok((goto(h, ParseState::MessageFullNameStart), None))
    } else if s == ParseState::MessageFullNameExtracted && is_tag(t.name@, TagName::Anchor) {
        Ok((goto(h, ParseState::MessageShortNameStart), None))
    } else if s == ParseState::MessageDateExtracted && tag_has(t, TagName::Div, ClassMark::MsgBody) {
        Ok((goto(h, ParseState::MessageBodyStart), None))
    } else if s == ParseState::MessageBodyStart && tag_has(t, TagName::Img, ClassMark::Emoji) {
        match t.alt {
            Some(a) => Ok((h, Some(EventView::BodyPart(a@)))),
            None => Err(ParseError::MissingAttribute),
        }
    } else if s == ParseState::MessageDateExtracted && is_tag(t.name@, TagName::Div) && t.attrs@.len() == 0 {
        Ok((goto(h, ParseState::MessageChatActionStart), None))
    } else if (s == ParseState::MessageDateExtracted || s == ParseState::MessageBodyExtracted) && tag_has(t, TagName::Div, ClassMark::Attachments) {
        Ok((goto(h, ParseState::MessageAttachmentsPrelude), None))
    } else if (s == ParseState::MessageAttachmentsPrelude || s == ParseState::MessageBodyExtracted) && tag_has(t, TagName::Div, ClassMark::Attachment) {
        Ok((goto(h, ParseState::MessageAttachmentStart), None))
    } else if (s == ParseState::MessageAttachmentsPrelude || s == ParseState::MessageBodyExtracted) && tag_has(t, TagName::Div, ClassMark::AttHead) {
        Ok((goto(h, ParseState::MessageForwardedStart), None))
    } else if s == ParseState::MessageAttachmentStart && tag_has(t, TagName::Div, ClassMark::AttIcon) {
        match icon_kind(t.attrs@) {
            Some(k) => Ok((goto(h, ParseState::MessageAttachmentHeadStart(k)), None)),
            None => Err(ParseError::UnsupportedAttachment),
        }
    } else if s == ParseState::MessageAttachmentStart && is_tag(t.name@, TagName::Pre) {
        Ok((goto(h, ParseState::MessageAttachmentRawBodyStart), None))
    } else if s is MessageAttachmentHeadStart && is_tag(t.name@, TagName::Anchor) {
        match t.href {
            Some(u) => Ok((HolderView { at: ParseState::MessageAttachmentBodyStart(s->MessageAttachmentHeadStart_0), url: u@, ..h }, None)),
            None => Err(ParseError::MissingAttribute),
        }
    } else if s == ParseState::MessageAttachmentEpilogue && tag_has(t, TagName::Div, ClassMark::WallText) {
        Ok((goto(h, ParseState::MessageAttachmentWallBodyStart), None))
    } else if s == ParseState::MessageForwardedStart && tag_has(t, TagName::Div, ClassMark::Forwarded) {
        if h.msg_level == u32::MAX {
            Err(ParseError::NestingTooDeep)
        } else {
            Ok((HolderView { at: ParseState::NoMessage, msg_level: (h.msg_level + 1) as u32, fwd_closed: false, ..h }, None))
        }
    } else {
        Ok((h, None))
    }
}

/// Transition on a text node.
pub open spec fn on_text(h: HolderView, t: TextToken) -> Step {
    let e = t.escaped@;
    let u = t.unescaped@;
    match h.at {
        ParseState::MessageFullNameStart => Ok((goto(h, ParseState::MessageFullNameExtracted), Some(EventView::FullName(e)))),
        ParseState::MessageShortNameStart => if e.len() == 0 {
            Err(ParseError::EmptyHandle)
        } else {
            Ok((goto(h, ParseState::MessageShortNameExtracted), Some(EventView::ShortName(e.drop_first()))))
        },
        ParseState::MessageDateStart => if trim_pad(e).len() == 0 {
            Ok((h, None))
        } else {
            Ok((goto(h, ParseState::MessageDateExtracted), Some(EventView::Date(trim_pad(e)))))
        },
        ParseState::MessageBodyStart => match body_text(u) {
            Some(b) => Ok((h, Some(EventView::BodyPart(b)))),
            None => Ok((h, None)),
        },
        ParseState::MessageAttachmentBodyStart(kind) => {
            let parts = caption_parts(trim_white(u));
            Ok((goto(h, ParseState::MessageAttachmentEpilogue), Some(EventView::Attachment { kind, url: h.url, vk_obj: parts.0, description: parts.1 })))
        },
        ParseState::MessageAttachmentRawBodyStart => Ok((h, Some(EventView::RawPart(u)))),
        ParseState::MessageAttachmentWallBodyStart => Ok((h, Some(EventView::WallPart(u)))),
        _ => Ok((h, None)),
    }
}

/// Transition on a self-closing tag.
pub open spec fn on_empty(h: HolderView, t: Tag) -> Step {
    if h.at == ParseState::MessageBodyStart && is_tag(t.name@, TagName::Br) {
        Ok((h, Some(EventView::BodyPart(seq!['\n']))))
    } else {
        Ok((h, None))
    }
}

/// Transition on a closing tag.
pub open spec fn on_end(h: HolderView, name: Seq<u8>) -> Step {
    let s = h.at;
    if s == ParseState::MessageShortNameExtracted {
        Ok((goto(h, ParseState::MessageDateStart), None))
    } else if (s == ParseState::MessageBodyStart || s == ParseState::MessageAttachmentWallBodyStart
        || s == ParseState::MessageChatActionStart || s == ParseState::MessageAttachmentEpilogue) && is_tag(name, TagName::Div) {
        Ok((goto(h, ParseState::MessageBodyExtracted), None))
    } else if s == ParseState::MessageAttachmentRawBodyStart && is_tag(name, TagName::Pre) {
        Ok((goto(h, ParseState::MessageBodyExtracted), None))
    } else if s == ParseState::MessageBodyExtracted && is_tag(name, TagName::Div) {
        Ok((goto(h, ParseState::NoMessage), None))
    } else if s == ParseState::NoMessage && is_tag(name, TagName::Div) && h.msg_level > 0 {
        if !h.fwd_closed {
            Ok((HolderView { fwd_closed: true, ..h }, None))
        } else {
            Ok((HolderView { msg_level: (h.msg_level - 1) as u32, fwd_closed: false, ..h }, None))
        }
    } else {
        Ok((h, None))
    }
}

/// One transition of the reader: the next state and the event emitted, if any.
pub open spec fn next(h: HolderView, tok: Token) -> Step {
    match tok {
        Token::Start(t) => on_start(h, t),
        Token::Text(t) => on_text(h, t),
        Token::Empty(t) => on_empty(h, t),
        Token::End(n) => on_end(h, n@),
        Token::Eof => Ok((h, None)),
    }
}

/// The error that stops the reading of `toks` from state `h`, if one does before
/// the first end-of-stream token.
pub open spec fn run_error(h: HolderView, toks: Seq<Token>) -> Option<ParseError>
    decreases toks.len(),
{
    if toks.len() == 0 || toks[0] is Eof {
        None
    } else {
        match next(h, toks[0]) {
            Err(e) => Some(e),
            Ok((h2, _)) => run_error(h2, toks.drop_first()),
        }
    }
}

/// Whether an event at depth `level` reaches the reducer while `skip` is in
/// force: with no skip, all do; after a skip at depth `l`, only the start of a
/// message at depth `l` or above.
pub open spec fn admits(skip: Option<u32>, level: u32, is_start: bool) -> bool {
    match skip {
        None => true,
        Some(l) => level <= l && is_start,
    }
}

/// The skip depth after an event at depth `level`, given whether the reducer,
/// if it saw the event, asked to skip.
pub open spec fn gate_next(skip: Option<u32>, level: u32, is_start: bool, skipped: bool) -> Option<u32> {
    if !admits(skip, level, is_start) {
        skip
    } else if skipped {
        Some(level)
    } else {
        None
    }
}

impl<A> EventResult<A> {
    pub open spec fn acc(self) -> A {
        match self {
            EventResult::Consumed(a) => a,
            EventResult::SkipMessage(a) => a,
        }
    }
}

/// Relies on `str::chars` collected into a `Vec`: the characters of the string, in order.
#[verifier::external_body]
fn chars_of(s: &str) -> (r: Vec<char>)
    ensures
        r@ == s@,
{
    s.chars().collect()
}

/// Relies on `String: FromIterator<&char>`: the string made of these characters.
#[verifier::external_body]
fn string_of(v: &[char]) -> (r: String)
    ensures
        r@ == v@,
{
    v.iter().collect()
}

/// Relies on `str::trim`: the characters with the Unicode `White_Space` property
/// are removed from both ends, nothing else changes.
#[verifier::external_body]
fn trim_text(s: &str) -> (r: String)
    ensures
        r@ == trim_white(s@),
{
    s.trim().to_string()
}

/// Relies on `regex::Regex::replace_all` with the pattern `\[id\d+\|(?P<name>[^\]]+)\]`
/// and the replacement `$name`. A text without `[` has no match, and the regex crate
/// hands such a text back unchanged.
#[verifier::external_body]
fn replace_mentions(s: &str) -> (r: String)
    ensures
        r@ == mentions_replaced(s@),
        !s@.contains('[') ==> r@ == s@,
{
    let re = regex::Regex::new(r"\[id\d+\|(?P<name>[^\]]+)\]").unwrap();
    re.replace_all(s, "$name").into_owned()
}

fn name_is(name: &[u8], n: TagName) -> (r: bool)
    ensures
        r == is_tag(name@, n),
{
    let pat = name_vec(n);
    same_bytes(name, pat.as_slice())
}

fn tag_marked(t: &Tag, n: TagName, c: ClassMark) -> (r: bool)
    ensures
        r == tag_has(*t, n, c),
{
    if !name_is(t.name.as_slice(), n) {
        return false;
    }
    let pat = mark_vec(c);
    contains_substring(t.attrs.as_slice(), pat.as_slice())
}

/// Reads the attachment kind from the raw attributes of an attachment's icon
/// element: the four bytes before the closing quote name it.
pub fn classify_attachment(attrs: &[u8]) -> (r: Result<MessageAttachmentKind, ParseError>)
    ensures
        r == (match icon_kind(attrs@) {
            Some(k) => Ok(k),
            None => Err(ParseError::UnsupportedAttachment),
        }),
{
    let n = attrs.len();
    if n < 5 {
        return Err(ParseError::UnsupportedAttachment);
    }
    let (a, b, c, d) = (attrs[n - 5], attrs[n - 4], attrs[n - 3], attrs[n - 2]);
    let ghost sig = attrs@.subrange(n - 5, n - 1);
    assert(sig =~= seq![a, b, c, d]);
    if a == 95 && b == 100 && c == 111 && d == 99 {  // _doc
        assert(sig =~= seq![95u8, 100u8, 111u8, 99u8]);
        Ok(MessageAttachmentKind::Doc)
    } else if a == 117 && b == 100 && c == 105 && d == 111 {  // udio
        assert(sig =~= seq![117u8, 100u8, 105u8, 111u8]);
        Ok(MessageAttachmentKind::Audio)
    } else if a == 105 && b == 100 && c == 101 && d == 111 {  // ideo
        assert(sig =~= seq![105u8, 100u8, 101u8, 111u8]);
        Ok(MessageAttachmentKind::Video)
    } else if a == 104 && b == 111 && c == 116 && d == 111 {  // hoto
        assert(sig =~= seq![104u8, 111u8, 116u8, 111u8]);
        Ok(MessageAttachmentKind::Photo)
    } else if a == 99 && b == 107 && c == 101 && d == 114 {  // cker
        assert(sig =~= seq![99u8, 107u8, 101u8, 114u8]);
        Ok(MessageAttachmentKind::Sticker)
    } else if a == 95 && b == 103 && c == 101 && d == 111 {  // _geo
        assert(sig =~= seq![95u8, 103u8, 101u8, 111u8]);
        Ok(MessageAttachmentKind::Location)
    } else if a == 119 && b == 97 && c == 108 && d == 108 {  // wall
        assert(sig =~= seq![119u8, 97u8, 108u8, 108u8]);
        Ok(MessageAttachmentKind::Wall)
    } else {
        assert(sig[0] == a && sig[1] == b && sig[2] == c && sig[3] == d);
        Err(ParseError::UnsupportedAttachment)
    }
}

proof fn lemma_close_pos(s: Seq<char>, p: nat)
    requires
        p <= s.len(),
        forall|m: int| 0 <= m < p ==> s[m] != ']',
        p == s.len() || s[p as int] == ']',
    ensures
        close_pos(s) == p,
    decreases p,
{
    if p > 0 {
        assert(s[0] != ']');
        let t = s.drop_first();
        assert forall|m: int| 0 <= m < p - 1 implies t[m] != ']' by {
            assert(t[m] == s[m + 1]);
        }
        lemma_close_pos(t, (p - 1) as nat);
    }
}

/// Splits an attachment caption into the object identifier in the brackets it
/// starts with (empty if it starts with none) and the description after them.
pub fn split_caption(info: &str) -> (r: (String, String))
    ensures
        (r.0@, r.1@) == caption_parts(info@),
{
    let v = chars_of(info);
    if v.len() > 0 && v[0] == '[' {
        let mut k: usize = 1;
        while k < v.len() && v[k] != ']'
            invariant
                1 <= k <= v@.len(),
                forall|m: int| 1 <= m < k ==> v@[m] != ']',
            decreases v@.len() - k,
        {
            k += 1;
        }
        let ghost rest = v@.drop_first();
        proof {
            assert forall|m: int| 0 <= m < k - 1 implies rest[m] != ']' by {
                assert(rest[m] == v@[m + 1]);
            }
            lemma_close_pos(rest, (k - 1) as nat);
        }
        let obj = copy_range(v.as_slice(), 1, k);
        assert(obj@ =~= rest.take(k - 1));
        if k < v.len() {
            let tail = copy_range(v.as_slice(), k + 1, v.len());
            assert(tail@ =~= rest.skip(k as int));
            let tail_text = string_of(tail.as_slice());
            (string_of(obj.as_slice()), trim_text(tail_text.as_str()))
        } else {
            assert(obj@ =~= rest);
            (string_of(obj.as_slice()), String::new())
        }
    } else {
        (String::new(), string_of(v.as_slice()))
    }
}

/// The mention rewriting of a body fragment: with a `[` in it, each
/// `[id<digits>|<name>]` becomes `<name>`; without one it is returned as it is.
pub open spec fn rewritten(s: Seq<char>) -> Seq<char> {
    if s.contains('[') {
        mentions_replaced(s)
    } else {
        s
    }
}

/// Replaces each user mention `[id<digits>|<name>]` in a text fragment by the name.
/// Fragments without `[` are returned without consulting the pattern.
pub fn rewrite_mentions(text: &str) -> (r: String)
    ensures
        r@ == rewritten(text@),
{
    let v = chars_of(text);
    if has_char(v.as_slice(), '[') {
        replace_mentions(text)
    } else {
        string_of(v.as_slice())
    }
}

/// Rewriting leaves a text without `[` as it is, and so rewriting it twice
/// gives what rewriting it once gives.
pub proof fn lemma_rewrite_idempotent_without_brackets(s: Seq<char>)
    requires
        !s.contains('['),
    ensures
        rewritten(s) == s,
        rewritten(rewritten(s)) == rewritten(s),
{
}

/// `r` and the state `h_new` are what the transition `expected` prescribes.
pub open spec fn step_matches(h_new: HolderView, r: Result<Option<MessageEvent>, ParseError>, expected: Step) -> bool {
    match expected {
        Ok((h2, e)) => r is Ok && h_new == h2 && event_option_view(r->Ok_0) == e,
        Err(x) => r == Err::<Option<MessageEvent>, ParseError>(x),
    }
}

impl ParseStateHolder {
    /// A holder in the state a parse run starts in.
    pub fn new() -> (r: ParseStateHolder)
        ensures
            r@ == initial_view(),
            r.skip_level is None,
    {
        ParseStateHolder {
            at: ParseState::Prelude,
            msg_level: 0,
            fwd_closed: false,
            skip_level: None,
            url: String::new(),
        }
    }

    /// Moves to `new_state`, leaving the counters as they are.
    pub fn advance(&mut self, new_state: ParseState)
        ensures
            final(self)@ == goto(old(self)@, new_state),
            final(self).skip_level == old(self).skip_level,
    {
        self.at = new_state;
    }

    fn on_start_tag(&mut self, t: &Tag) -> (r: Result<Option<MessageEvent>, ParseError>)
        ensures
            step_matches(final(self)@, r, on_start(old(self)@, *t)),
            final(self).skip_level == old(self).skip_level,
    {
        let s = self.at;
        let head_kind: Option<MessageAttachmentKind> = match s {
            ParseState::MessageAttachmentHeadStart(k) => Some(k),
            _ => None,
        };
        if s == ParseState::Prelude && name_is(t.name.as_slice(), TagName::Hr) {
            self.advance(ParseState::NoMessage);
            Ok(None)
        } else if (s == ParseState::NoMessage || s == ParseState::MessageBodyExtracted) && tag_marked(t, TagName::Div, ClassMark::MsgItem) {
            self.advance(ParseState::MessageStart);
            Ok(Some(MessageEvent::Start(self.msg_level)))
        } else if s == ParseState::MessageStart && name_is(t.name.as_slice(), TagName::Bold) {
            self.advance(ParseState::MessageFullNameStart);
            Ok(None)
        } else if s == ParseState::MessageFullNameExtracted && name_is(t.name.as_slice(), TagName::Anchor) {
            self.advance(ParseState::MessageShortNameStart);
            Ok(None)
        } else if s == ParseState::MessageDateExtracted && tag_marked(t, TagName::Div, ClassMark::MsgBody) {
            self.advance(ParseState::MessageBodyStart);
            Ok(None)
        } else if s == ParseState::MessageBodyStart && tag_marked(t, TagName::Img, ClassMark::Emoji) {
            match &t.alt {
                Some(a) => Ok(Some(MessageEvent::BodyPartExtracted(a.clone()))),
                None => Err(ParseError::MissingAttribute),
            }
        } else if s == ParseState::MessageDateExtracted && name_is(t.name.as_slice(), TagName::Div) && t.attrs.len() == 0 {
            self.advance(ParseState::MessageChatActionStart);
            Ok(None)
        } else if (s == ParseState::MessageDateExtracted || s == ParseState::MessageBodyExtracted) && tag_marked(t, TagName::Div, ClassMark::Attachments) {
            self.advance(ParseState::MessageAttachmentsPrelude);
            Ok(None)
        } else if (s == ParseState::MessageAttachmentsPrelude || s == ParseState::MessageBodyExtracted) && tag_marked(t, TagName::Div, ClassMark::Attachment) {
            self.advance(ParseState::MessageAttachmentStart);
            Ok(None)
        } else if (s == ParseState::MessageAttachmentsPrelude || s == ParseState::MessageBodyExtracted) && tag_marked(t, TagName::Div, ClassMark::AttHead) {
            self.advance(ParseState::MessageForwardedStart);
            Ok(None)
        } else if s == ParseState::MessageAttachmentStart && tag_marked(t, TagName::Div, ClassMark::AttIcon) {
            let kind = classify_attachment(t.attrs.as_slice())?;
            self.advance(ParseState::MessageAttachmentHeadStart(kind));
            Ok(None)
        } else if s == ParseState::MessageAttachmentStart && name_is(t.name.as_slice(), TagName::Pre) {
            self.advance(ParseState::MessageAttachmentRawBodyStart);
            Ok(None)
        } else if head_kind.is_some() && name_is(t.name.as_slice(), TagName::Anchor) {
            let kind = head_kind.unwrap();
            self.url = match &t.href {
                Some(u) => u.clone(),
                None => {
                    return Err(ParseError::MissingAttribute);
                },
            };
            self.advance(ParseState::MessageAttachmentBodyStart(kind));
            Ok(None)
        } else if s == ParseState::MessageAttachmentEpilogue && tag_marked(t, TagName::Div, ClassMark::WallText) {
            self.advance(ParseState::MessageAttachmentWallBodyStart);
            Ok(None)
        } else if s == ParseState::MessageForwardedStart && tag_marked(t, TagName::Div, ClassMark::Forwarded) {
            if self.msg_level == u32::MAX {
                return Err(ParseError::NestingTooDeep);
            }
            self.msg_level = self.msg_level + 1;
            self.fwd_closed = false;
            self.advance(ParseState::NoMessage);
            Ok(None)
        } else {
            Ok(None)
        }
    }

    fn on_text_node(&mut self, t: &TextToken) -> (r: Result<Option<MessageEvent>, ParseError>)
        ensures
            step_matches(final(self)@, r, on_text(old(self)@, *t)),
            final(self).skip_level == old(self).skip_level,
    {
        match self.at {
            ParseState::MessageFullNameStart => {
                self.advance(ParseState::MessageFullNameExtracted);
                Ok(Some(MessageEvent::FullNameExtracted(t.escaped.clone())))
            },
            ParseState::MessageShortNameStart => {
                let v = chars_of(t.escaped.as_str());
                if v.len() == 0 {
                    return Err(ParseError::EmptyHandle);
                }
                let handle = copy_range(v.as_slice(), 1, v.len());
                assert(handle@ =~= t.escaped@.drop_first());
                self.advance(ParseState::MessageShortNameExtracted);
                Ok(Some(MessageEvent::ShortNameExtracted(string_of(handle.as_slice()))))
            },
            ParseState::MessageDateStart => {
                let v = chars_of(t.escaped.as_str());
                let date = pad_trimmed(v.as_slice());
                if date.len() == 0 {
                    Ok(None)
                } else {
                    self.advance(ParseState::MessageDateExtracted);
                    Ok(Some(MessageEvent::DateExtracted(string_of(date.as_slice()))))
                }
            },
            ParseState::MessageBodyStart => {
                let v = chars_of(t.unescaped.as_str());
                if has_char(v.as_slice(), '[') {
                    Ok(Some(MessageEvent::BodyPartExtracted(replace_mentions(t.unescaped.as_str()))))
                } else if v.len() > 0 {
                    Ok(Some(MessageEvent::BodyPartExtracted(t.unescaped.clone())))
                } else {
                    Ok(None)
                }
            },
            ParseState::MessageAttachmentBodyStart(kind) => {
                let info = trim_text(t.unescaped.as_str());
                let (vk_obj, description) = split_caption(info.as_str());
                let url = self.url.clone();
                self.advance(ParseState::MessageAttachmentEpilogue);
                Ok(Some(MessageEvent::AttachmentExtracted { kind, url, vk_obj, description }))
            },
            ParseState::MessageAttachmentRawBodyStart => {
                Ok(Some(MessageEvent::RawAttachmentPartExtracted(t.unescaped.clone())))
            },
            ParseState::MessageAttachmentWallBodyStart => {
                Ok(Some(MessageEvent::WallPartExtracted(t.unescaped.clone())))
            },
            _ => Ok(None),
        }
    }

    fn on_empty_tag(&mut self, t: &Tag) -> (r: Result<Option<MessageEvent>, ParseError>)
        ensures
            step_matches(final(self)@, r, on_empty(old(self)@, *t)),
            final(self).skip_level == old(self).skip_level,
    {
        if self.at == ParseState::MessageBodyStart && name_is(t.name.as_slice(), TagName::Br) {
            let nl = vec!['\n'];
            assert(nl@ =~= seq!['\n']);
            Ok(Some(MessageEvent::BodyPartExtracted(string_of(nl.as_slice()))))
        } else {
            Ok(None)
        }
    }

    fn on_end_tag(&mut self, name: &[u8]) -> (r: Result<Option<MessageEvent>, ParseError>)
        ensures
            step_matches(final(self)@, r, on_end(old(self)@, name@)),
            final(self).skip_level == old(self).skip_level,
    {
        let s = self.at;
        if s == ParseState::MessageShortNameExtracted {
            self.advance(ParseState::MessageDateStart);
        } else if (s == ParseState::MessageBodyStart || s == ParseState::MessageAttachmentWallBodyStart
            || s == ParseState::MessageChatActionStart || s == ParseState::MessageAttachmentEpilogue) && name_is(name, TagName::Div) {
            self.advance(ParseState::MessageBodyExtracted);
        } else if s == ParseState::MessageAttachmentRawBodyStart && name_is(name, TagName::Pre) {
            self.advance(ParseState::MessageBodyExtracted);
        } else if s == ParseState::MessageBodyExtracted && name_is(name, TagName::Div) {
            self.advance(ParseState::NoMessage);
        } else if s == ParseState::NoMessage && name_is(name, TagName::Div) && self.msg_level > 0 {
            if !self.fwd_closed {
                self.fwd_closed = true;
            } else {
                self.msg_level = self.msg_level - 1;
                self.fwd_closed = false;
            }
        }
        Ok(None)
    }

    /// Reads one token: moves to the next state and returns the event it
    /// completes, if any.
    pub fn on_token(&mut self, tok: &Token) -> (r: Result<Option<MessageEvent>, ParseError>)
        ensures
            step_matches(final(self)@, r, next(old(self)@, *tok)),
            final(self).skip_level == old(self).skip_level,
    {
        match tok {
            Token::Start(t) => self.on_start_tag(t),
            Token::Text(t) => self.on_text_node(t),
            Token::Empty(t) => self.on_empty_tag(t),
            Token::End(n) => self.on_end_tag(n.as_slice()),
            Token::Eof => Ok(None),
        }
    }
}

impl ParseStateHolder {
    /// Whether `ev`, emitted now, reaches the reducer.
    pub fn delivers(&self, ev: &MessageEvent) -> (r: bool)
        ensures
            r == admits(self.skip_level, self.msg_level, ev is Start),
    {
        match self.skip_level {
            None => true,
            Some(l) => self.msg_level <= l && matches!(ev, MessageEvent::Start(_)),
        }
    }

    /// Hands `ev` to the reducer if the skip protocol lets it through, and
    /// records the verdict. A suppressed event leaves `acc` untouched.
    pub fn deliver<A, F>(&mut self, acc: A, ev: MessageEvent, reducer: &F) -> (r: A)
        where
            F: Fn(A, MessageEvent) -> EventResult<A>,
        requires
            forall|a: A, e: MessageEvent| reducer.requires((a, e)),
        ensures
            final(self)@ == old(self)@,
            final(self).msg_level == old(self).msg_level,
            !admits(old(self).skip_level, old(self).msg_level, ev is Start) ==> r == acc
                && final(self).skip_level == old(self).skip_level,
            admits(old(self).skip_level, old(self).msg_level, ev is Start) ==> exists|v: EventResult<A>|
                call_ensures(*reducer, (acc, ev), v) && r == v.acc()
                && final(self).skip_level == gate_next(old(self).skip_level, old(self).msg_level, ev is Start, v is SkipMessage),
    {
        if !self.delivers(&ev) {
            return acc;
        }
        let ghost (a0, e0) = (acc, ev);
        let v = reducer(acc, ev);
        let ghost vg = v;
        let r = match v {
            EventResult::Consumed(next_acc) => {
                self.skip_level = None;
                next_acc
            },
            EventResult::SkipMessage(next_acc) => {
                self.skip_level = Some(self.msg_level);
                next_acc
            },
        };
        assert(call_ensures(*reducer, (a0, e0), vg) && r == vg.acc()
            && self.skip_level == gate_next(old(self).skip_level, old(self).msg_level, e0 is Start, vg is SkipMessage));
        r
    }
}

/// `out` is a value that folding `toks` from reader state `h`, skip depth `skip`
/// and accumulator `acc` can end with: each event that the skip protocol lets
/// through goes to `reducer` with the accumulator so far, which becomes what the
/// reducer returned; a suppressed event changes nothing.
pub open spec fn folds_to<A, F: Fn(A, MessageEvent) -> EventResult<A>>(
    reducer: F,
    h: HolderView,
    skip: Option<u32>,
    acc: A,
    toks: Seq<Token>,
    out: A,
) -> bool
    decreases toks.len(),
{
    if toks.len() == 0 || toks[0] is Eof {
        out == acc
    } else {
        match next(h, toks[0]) {
            Err(_) => false,
            Ok((h2, None)) => folds_to(reducer, h2, skip, acc, toks.drop_first(), out),
            Ok((h2, Some(ev))) => if !admits(skip, h2.msg_level, ev is Start) {
                folds_to(reducer, h2, skip, acc, toks.drop_first(), out)
            } else {
                exists|e: MessageEvent, v: EventResult<A>|
                    e@ == ev && #[trigger] call_ensures(reducer, (acc, e), v)
                    && folds_to(reducer, h2, gate_next(skip, h2.msg_level, ev is Start, v is SkipMessage),
                        v.acc(), toks.drop_first(), out)
            },
        }
    }
}

/// Reads `tokens` up to the first end-of-stream token, folding every event the
/// skip protocol lets through into `init` with `reducer`. Fails with the first
/// inconsistency in the markup.
pub fn fold_tokens<A, F>(tokens: &[Token], init: A, reducer: F) -> (r: Result<A, ParseError>)
    where
        F: Fn(A, MessageEvent) -> EventResult<A>,
    requires
        forall|a: A, e: MessageEvent| reducer.requires((a, e)),
    ensures
        match r {
            Ok(out) => run_error(initial_view(), tokens@) is None
                && folds_to(reducer, initial_view(), None, init, tokens@, out),
            Err(e) => run_error(initial_view(), tokens@) == Some(e),
        },
{
    let ghost init_g = init;
    let mut state = ParseStateHolder::new();
    let mut acc = init;
    let mut i: usize = 0;
    assert(tokens@.skip(0) =~= tokens@);
    while i < tokens.len()
        invariant
            i <= tokens@.len(),
            run_error(initial_view(), tokens@) == run_error(state@, tokens@.skip(i as int)),
            forall|out: A| folds_to(reducer, state@, state.skip_level, acc, tokens@.skip(i as int), out)
                ==> folds_to(reducer, initial_view(), None, init_g, tokens@, out),
            forall|a: A, e: MessageEvent| reducer.requires((a, e)),
        decreases tokens@.len() - i,
    {
        let tok = &tokens[i];
        assert(tokens@.skip(i as int)[0] == tokens@[i as int]);
        if matches!(tok, Token::Eof) {
            let ghost rest = tokens@.skip(i as int);
            assert(folds_to(reducer, state@, state.skip_level, acc, rest, acc));
            i = tokens.len();
            assert(tokens@.skip(i as int).len() == 0);
            assert forall|out: A| folds_to(reducer, state@, state.skip_level, acc, tokens@.skip(i as int), out)
                implies folds_to(reducer, initial_view(), None, init_g, tokens@, out) by {
                assert(out == acc);
            }
        } else {
            let ghost (h0, skip0, acc0, rest0) = (state@, state.skip_level, acc, tokens@.skip(i as int));
            match state.on_token(tok) {
                Err(e) => {
                    return Err(e);
                },
                Ok(found) => {
                    let ghost rest1 = tokens@.skip(i + 1);
                    assert(rest0.drop_first() =~= rest1);
                    let ghost h1 = state@;
                    if let Some(ev) = found {
                        let ghost ev_g = ev;
                        acc = state.deliver(acc, ev, &reducer);
                        proof {
                            assert forall|out: A| folds_to(reducer, h1, state.skip_level, acc, rest1, out)
                                implies folds_to(reducer, h0, skip0, acc0, rest0, out) by {
                                if admits(skip0, h1.msg_level, ev_g@ is Start) {
                                    let v = choose|v: EventResult<A>| call_ensures(reducer, (acc0, ev_g), v)
                                        && acc == v.acc()
                                        && state.skip_level == gate_next(skip0, h1.msg_level, ev_g is Start, v is SkipMessage);
                                    assert(call_ensures(reducer, (acc0, ev_g), v));
                                }
                            }
                        }
                    }
                    assert(state@ == h1);
                    i += 1;
                },
            }
        }
    }
    Ok(acc)
}

} // verus!
