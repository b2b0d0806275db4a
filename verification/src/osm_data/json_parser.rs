//! A line-by-line reader of the JSON that the Overpass API returns.
//!
//! The reader is fed the document one line at a time. It keeps track of where
//! it stands in the document (a stack of objects and lists, each with the key
//! it was opened under), collects the fields of the element that is being read
//! out of `elements`, and hands every element back when its object closes. The
//! first error puts the reader in an error state that every later line
//! reports.

use vstd::prelude::*;
use vstd::string::*;
use vstd::utf8::*;
use json_tools::{Buffer, BufferType, Lexer, TokenType};
use std::str::Utf8Error;
use crate::numbers::{float_text, is_float_text, parse_u64, u64_text_value};
use crate::osm::{OsmTags, OsmWay, OsmRelation, OsmRelationMember, OsmRelationMemberRole, OsmRelationMemberType};
use crate::osm_data::pbf_reader::role_name;
use crate::text::{remove_all, remove_occurrences, str_eq};

verus! {

#[verifier::external_type_specification]
#[verifier::external_body]
pub struct ExUtf8Error(Utf8Error);

/// The kind of a JSON token.
#[derive(Clone, Copy, Debug, PartialEq, Eq, Structural)]
pub enum JsonTokenKind {
    CurlyOpen,
    CurlyClose,
    BracketOpen,
    BracketClose,
    Colon,
    Comma,
    Str,
    BooleanTrue,
    BooleanFalse,
    Number,
    Null,
    Invalid,
}

/// A JSON token: its kind and, for a string or a number, the bytes that make
/// it up (a string's quotes included).
#[derive(Debug)]
pub struct JsonToken {
    pub kind: JsonTokenKind,
    pub bytes: Option<Vec<u8>>,
}

/// A token as its kind and its bytes.
pub type TokenView = (JsonTokenKind, Option<Seq<u8>>);

impl View for JsonToken {
    type V = TokenView;

    open spec fn view(&self) -> TokenView {
        (
            self.kind,
            match self.bytes {
                Some(b) => Some(b@),
                None => None,
            },
        )
    }
}

/// The tokens that `json_tools::Lexer` finds in a line of bytes.
pub uninterp spec fn lexed_json_tokens(line: Seq<u8>) -> Seq<TokenView>;

/// Splits a line into JSON tokens with `json_tools::Lexer` (asking it for the
/// bytes of strings and numbers). The tokens are those the lexer returns, in
/// order, each converted one for one.
#[verifier::external_body]
fn lex_json_line(line: &Vec<u8>) -> (tokens: Vec<JsonToken>)
    ensures
        tokens@.map_values(|t: JsonToken| t@) == lexed_json_tokens(line@),
{
    Lexer::new(line.iter().copied(), BufferType::Bytes(0)).map(|token| JsonToken {
        kind: match token.kind {
            TokenType::CurlyOpen => JsonTokenKind::CurlyOpen, TokenType::CurlyClose => JsonTokenKind::CurlyClose,
            TokenType::BracketOpen => JsonTokenKind::BracketOpen, TokenType::BracketClose => JsonTokenKind::BracketClose,
            TokenType::Colon => JsonTokenKind::Colon, TokenType::Comma => JsonTokenKind::Comma,
            TokenType::String => JsonTokenKind::Str, TokenType::Number => JsonTokenKind::Number,
            TokenType::BooleanTrue => JsonTokenKind::BooleanTrue, TokenType::BooleanFalse => JsonTokenKind::BooleanFalse,
            TokenType::Null => JsonTokenKind::Null, TokenType::Invalid => JsonTokenKind::Invalid,
        },
        bytes: match token.buf { Buffer::MultiByte(bytes) => Some(bytes), Buffer::Span(_) => None },
    }).collect()
}

/// `std::str::from_utf8`, the text then copied into a `String`: it succeeds
/// exactly when the bytes are valid UTF-8, and then holds the characters that
/// they encode.
#[verifier::external_body]
fn utf8_to_string(bytes: &Vec<u8>) -> (r: Result<String, Utf8Error>)
    ensures
        r is Ok <==> valid_utf8(bytes@),
        r matches Ok(s) ==> s@ == decode_utf8(bytes@),
{
    std::str::from_utf8(bytes).map(|text| text.to_string())
}

/// The type of an OSM element.
#[derive(Clone, Copy, Debug, PartialEq, Eq, Structural)]
pub enum OsmElementType {
    Node,
    Way,
    Relation,
}

/// The type of a relation member as the JSON gives it.
#[derive(Clone, Copy, Debug, PartialEq, Eq, Structural)]
pub enum OsmRelMemberType {
    Way,
    Node,
}

/// The role of a relation member as the JSON gives it.
#[derive(Debug, PartialEq, Eq)]
pub enum OsmRelMemberRole {
    From,
    Via,
    To,
    Other(String),
}

/// A member role as text.
pub enum RoleView {
    From,
    Via,
    To,
    Other(Seq<char>),
}

impl View for OsmRelMemberRole {
    type V = RoleView;

    open spec fn view(&self) -> RoleView {
        match self {
            OsmRelMemberRole::From => RoleView::From,
            OsmRelMemberRole::Via => RoleView::Via,
            OsmRelMemberRole::To => RoleView::To,
            OsmRelMemberRole::Other(r) => RoleView::Other(r@),
        }
    }
}

impl Clone for OsmRelMemberRole {
    fn clone(&self) -> (res: Self)
        ensures
            res@ == self@,
    {
        match self {
            OsmRelMemberRole::From => OsmRelMemberRole::From,
            OsmRelMemberRole::Via => OsmRelMemberRole::Via,
            OsmRelMemberRole::To => OsmRelMemberRole::To,
            OsmRelMemberRole::Other(r) => OsmRelMemberRole::Other(r.clone()),
        }
    }
}

/// A relation member as far as it has been read.
#[derive(Debug, PartialEq, Eq)]
pub struct OsmRelMember {
    pub member_type: Option<OsmRelMemberType>,
    pub member_ref: Option<u64>,
    pub role: Option<OsmRelMemberRole>,
}

/// A member's fields as values.
pub struct MemberView {
    pub member_type: Option<OsmRelMemberType>,
    pub member_ref: Option<u64>,
    pub role: Option<RoleView>,
}

impl View for OsmRelMember {
    type V = MemberView;

    open spec fn view(&self) -> MemberView {
        MemberView {
            member_type: self.member_type,
            member_ref: self.member_ref,
            role: match self.role {
                Some(r) => Some(r@),
                None => None,
            },
        }
    }
}

impl Clone for OsmRelMember {
    fn clone(&self) -> (res: Self)
        ensures
            res@ == self@,
    {
        OsmRelMember {
            member_type: self.member_type,
            member_ref: self.member_ref,
            role: match &self.role {
                Some(r) => Some(r.clone()),
                None => None,
            },
        }
    }
}

/// The members' fields as values.
pub open spec fn members_view(members: Seq<OsmRelMember>) -> Seq<MemberView> {
    members.map_values(|m: OsmRelMember| m@)
}

/// An element of the document as far as it has been read. The coordinates of
/// a node are kept as the text of the JSON number, which `str::parse::<f64>`
/// accepts.
#[derive(Debug, PartialEq, Eq)]
pub struct OsmElement {
    pub element_type: Option<OsmElementType>,
    pub id: Option<u64>,
    pub tags: Option<OsmTags>,
    pub members: Option<Vec<OsmRelMember>>,
    pub nodes: Option<Vec<u64>>,
    pub lat: Option<String>,
    pub lon: Option<String>,
}

/// An element's fields as values.
pub struct ElementView {
    pub element_type: Option<OsmElementType>,
    pub id: Option<u64>,
    pub tags: Option<Map<Seq<char>, Seq<char>>>,
    pub members: Option<Seq<MemberView>>,
    pub nodes: Option<Seq<u64>>,
    pub lat: Option<Seq<char>>,
    pub lon: Option<Seq<char>>,
}

/// The characters of an optional string.
pub open spec fn opt_text(s: Option<String>) -> Option<Seq<char>> {
    match s {
        Some(t) => Some(t@),
        None => None,
    }
}

impl View for OsmElement {
    type V = ElementView;

    open spec fn view(&self) -> ElementView {
        ElementView {
            element_type: self.element_type,
            id: self.id,
            tags: match self.tags {
                Some(t) => Some(t@),
                None => None,
            },
            members: match self.members {
                Some(m) => Some(members_view(m@)),
                None => None,
            },
            nodes: match self.nodes {
                Some(n) => Some(n@),
                None => None,
            },
            lat: opt_text(self.lat),
            lon: opt_text(self.lon),
        }
    }
}

/// An element with no field read yet.
pub open spec fn empty_element() -> ElementView {
    ElementView {
        element_type: None,
        id: None,
        tags: None,
        members: None,
        nodes: None,
        lat: None,
        lon: None,
    }
}

fn clone_text(s: &Option<String>) -> (res: Option<String>)
    ensures
        opt_text(res) == opt_text(*s),
{
    match s {
        Some(t) => Some(t.clone()),
        None => None,
    }
}

fn clone_members(members: &Vec<OsmRelMember>) -> (res: Vec<OsmRelMember>)
    ensures
        members_view(res@) == members_view(members@),
{
    let mut res: Vec<OsmRelMember> = Vec::new();
    let mut i: usize = 0;
    while i < members.len()
        invariant
            i <= members.len(),
            members_view(res@) =~= members_view(members@.take(i as int)),
        decreases members.len() - i,
    {
        let ghost before = res@;
        let m = members[i].clone();
        res.push(m);
        proof {
            assert(members@.take(i + 1) =~= members@.take(i as int).push(members@[i as int]));
            assert(members_view(res@) =~= members_view(before).push(m@));
            assert(members_view(members@.take(i + 1)) =~= members_view(members@.take(i as int)).push(
                members@[i as int]@,
            ));
        }
        i = i + 1;
    }
    assert(members@.take(members.len() as int) =~= members@);
    res
}

fn clone_nodes(nodes: &Vec<u64>) -> (res: Vec<u64>)
    ensures
        res@ == nodes@,
{
    let mut res: Vec<u64> = Vec::new();
    let mut i: usize = 0;
    while i < nodes.len()
        invariant
            i <= nodes.len(),
            res@ =~= nodes@.take(i as int),
        decreases nodes.len() - i,
    {
        res.push(nodes[i]);
        i = i + 1;
    }
    res
}

impl Clone for OsmElement {
    fn clone(&self) -> (res: Self)
        ensures
            res@ == self@,
    {
        OsmElement {
            element_type: self.element_type,
            id: self.id,
            tags: match &self.tags {
                Some(t) => Some(t.clone()),
                None => None,
            },
            members: match &self.members {
                Some(m) => Some(clone_members(m)),
                None => None,
            },
            nodes: match &self.nodes {
                Some(n) => Some(clone_nodes(n)),
                None => None,
            },
            lat: clone_text(&self.lat),
            lon: clone_text(&self.lon),
        }
    }
}

impl OsmElement {
    /// An element with no field read yet.
    pub fn new() -> (res: Self)
        ensures
            res@ == empty_element(),
    {
        OsmElement {
            element_type: None,
            id: None,
            tags: None,
            members: None,
            nodes: None,
            lat: None,
            lon: None,
        }
    }
}

/// A node as the JSON gives it: its id, and its coordinates as the decimal
/// text of the document (text that `str::parse::<f64>` accepts).
#[derive(Clone, Debug, PartialEq, Eq)]
pub struct JsonNode {
    pub id: u64,
    pub lat: String,
    pub lon: String,
}

/// What can go wrong while reading the document or an element out of it.
#[derive(Debug, PartialEq, Eq)]
pub enum OsmJsonParserError {
    UnexpectedToken { token: JsonTokenKind, context: String },
    Utf8ParseError { error: Utf8Error },
    UnexpectedBuffer,
    ArrayFoundInRoot,
    FailedToParseNodeId { value: String },
    FailedToParseLat { value: String },
    FailedToParseLon { value: String },
    UnknownNodeType { node_type: String },
    UnknownMemberType { member_type: String },
    MissingElementType { element: OsmElement },
    MissingValueForElement { element_type: String, value: String },
    ParserInErrorState { error: Box<OsmJsonParserError> },
    ElementIsNotNode,
    ElementIsNotWay,
}

/// An error with its texts as character sequences.
pub enum ErrorView {
    UnexpectedToken { token: JsonTokenKind, context: Seq<char> },
    Utf8ParseError,
    UnexpectedBuffer,
    ArrayFoundInRoot,
    FailedToParseNodeId { value: Seq<char> },
    FailedToParseLat { value: Seq<char> },
    FailedToParseLon { value: Seq<char> },
    UnknownNodeType { node_type: Seq<char> },
    UnknownMemberType { member_type: Seq<char> },
    MissingElementType { element: ElementView },
    MissingValueForElement { element_type: Seq<char>, value: Seq<char> },
    ParserInErrorState { error: Box<ErrorView> },
    ElementIsNotNode,
    ElementIsNotWay,
}

/// The error as values.
pub open spec fn error_view(e: OsmJsonParserError) -> ErrorView
    decreases e,
{
    match e {
        OsmJsonParserError::UnexpectedToken { token, context } => ErrorView::UnexpectedToken {
            token,
            context: context@,
        },
        OsmJsonParserError::Utf8ParseError { .. } => ErrorView::Utf8ParseError,
        OsmJsonParserError::UnexpectedBuffer => ErrorView::UnexpectedBuffer,
        OsmJsonParserError::ArrayFoundInRoot => ErrorView::ArrayFoundInRoot,
        OsmJsonParserError::FailedToParseNodeId { value } => ErrorView::FailedToParseNodeId {
            value: value@,
        },
        OsmJsonParserError::FailedToParseLat { value } => ErrorView::FailedToParseLat {
            value: value@,
        },
        OsmJsonParserError::FailedToParseLon { value } => ErrorView::FailedToParseLon {
            value: value@,
        },
        OsmJsonParserError::UnknownNodeType { node_type } => ErrorView::UnknownNodeType {
            node_type: node_type@,
        },
        OsmJsonParserError::UnknownMemberType { member_type } => ErrorView::UnknownMemberType {
            member_type: member_type@,
        },
        OsmJsonParserError::MissingElementType { element } => ErrorView::MissingElementType {
            element: element@,
        },
        OsmJsonParserError::MissingValueForElement { element_type, value } =>
            ErrorView::MissingValueForElement { element_type: element_type@, value: value@ },
        OsmJsonParserError::ParserInErrorState { error } => ErrorView::ParserInErrorState {
            error: Box::new(error_view(*error)),
        },
        OsmJsonParserError::ElementIsNotNode => ErrorView::ElementIsNotNode,
        OsmJsonParserError::ElementIsNotWay => ErrorView::ElementIsNotWay,
    }
}

fn clone_error(e: &OsmJsonParserError) -> (res: OsmJsonParserError)
    ensures
        error_view(res) == error_view(*e),
    decreases e,
{
    match e {
        OsmJsonParserError::UnexpectedToken { token, context } => OsmJsonParserError::UnexpectedToken {
            token: *token,
            context: context.clone(),
        },
        OsmJsonParserError::Utf8ParseError { error } => OsmJsonParserError::Utf8ParseError {
            error: *error,
        },
        OsmJsonParserError::UnexpectedBuffer => OsmJsonParserError::UnexpectedBuffer,
        OsmJsonParserError::ArrayFoundInRoot => OsmJsonParserError::ArrayFoundInRoot,
        OsmJsonParserError::FailedToParseNodeId { value } => OsmJsonParserError::FailedToParseNodeId {
            value: value.clone(),
        },
        OsmJsonParserError::FailedToParseLat { value } => OsmJsonParserError::FailedToParseLat {
            value: value.clone(),
        },
        OsmJsonParserError::FailedToParseLon { value } => OsmJsonParserError::FailedToParseLon {
            value: value.clone(),
        },
        OsmJsonParserError::UnknownNodeType { node_type } => OsmJsonParserError::UnknownNodeType {
            node_type: node_type.clone(),
        },
        OsmJsonParserError::UnknownMemberType { member_type } =>
            OsmJsonParserError::UnknownMemberType { member_type: member_type.clone() },
        OsmJsonParserError::MissingElementType { element } =>
            OsmJsonParserError::MissingElementType { element: element.clone() },
        OsmJsonParserError::MissingValueForElement { element_type, value } =>
            OsmJsonParserError::MissingValueForElement {
                element_type: element_type.clone(),
                value: value.clone(),
            },
        OsmJsonParserError::ParserInErrorState { error } => {
            let inner = clone_error(&**error);
            OsmJsonParserError::ParserInErrorState { error: Box::new(inner) }
        },
        OsmJsonParserError::ElementIsNotNode => OsmJsonParserError::ElementIsNotNode,
        OsmJsonParserError::ElementIsNotWay => OsmJsonParserError::ElementIsNotWay,
    }
}

impl Clone for OsmJsonParserError {
    fn clone(&self) -> (res: Self)
        ensures
            error_view(res) == error_view(*self),
    {
        clone_error(self)
    }
}

/// Where the reader stands: inside an object opened under a key (no key for
/// the document itself), or inside a list opened under a key.
#[derive(Debug)]
enum ParserStateLocation {
    InObject(Option<String>),
    InList(String),
}

/// A location with its key as text.
pub enum LocationView {
    InObject(Option<Seq<char>>),
    InList(Seq<char>),
}

impl View for ParserStateLocation {
    type V = LocationView;

    closed spec fn view(&self) -> LocationView {
        match self {
            ParserStateLocation::InObject(k) => LocationView::InObject(opt_text(*k)),
            ParserStateLocation::InList(k) => LocationView::InList(k@),
        }
    }
}

/// The whole state of the reader.
pub struct ParserView {
    /// The open objects and lists, outermost first.
    pub location: Seq<LocationView>,
    /// The key whose value comes next, if any.
    pub prev_key: Option<Seq<char>>,
    /// The last string or number read since the last comma or bracket.
    pub prev_string: Option<Seq<char>>,
    /// The element being read.
    pub current: Option<ElementView>,
    /// The error that stopped the reader.
    pub failed: Option<ErrorView>,
}

/// Inside the list `elements` of the document.
pub open spec fn elements_list_location() -> Seq<LocationView> {
    seq![LocationView::InObject(None), LocationView::InList("elements"@)]
}

/// Inside an object of the list `elements`: an element.
pub open spec fn elements_obj_location() -> Seq<LocationView> {
    elements_list_location().push(LocationView::InObject(Some("elements"@)))
}

/// Inside the `tags` object of an element.
pub open spec fn tags_obj_location() -> Seq<LocationView> {
    elements_obj_location().push(LocationView::InObject(Some("tags"@)))
}

/// Inside the `nodes` list of an element.
pub open spec fn nodes_list_location() -> Seq<LocationView> {
    elements_obj_location().push(LocationView::InList("nodes"@))
}

/// Inside an object of the `members` list of an element.
pub open spec fn members_obj_location() -> Seq<LocationView> {
    elements_obj_location().push(LocationView::InList("members"@)).push(
        LocationView::InObject(Some("members"@)),
    )
}

/// The reader before the first line.
pub open spec fn initial_parser() -> ParserView {
    ParserView { location: seq![], prev_key: None, prev_string: None, current: None, failed: None }
}

/// The state with another element being read.
pub open spec fn with_current(p: ParserView, el: ElementView) -> ParserView {
    ParserView { current: Some(el), ..p }
}

/// `val` read as the field `key` of an element.
pub open spec fn element_field(el: ElementView, key: Seq<char>, val: Seq<char>) -> Result<
    ElementView,
    ErrorView,
> {
    if key == "type"@ {
        if val == "node"@ {
            Ok(ElementView { element_type: Some(OsmElementType::Node), ..el })
        } else if val == "way"@ {
            Ok(ElementView { element_type: Some(OsmElementType::Way), ..el })
        } else if val == "relation"@ {
            Ok(ElementView { element_type: Some(OsmElementType::Relation), ..el })
        } else {
            Err(ErrorView::UnknownNodeType { node_type: val })
        }
    } else if key == "id"@ {
        match u64_text_value(val) {
            Some(v) => Ok(ElementView { id: Some(v), ..el }),
            None => Err(ErrorView::FailedToParseNodeId { value: val }),
        }
    } else if key == "lat"@ {
        if float_text(val) {
            Ok(ElementView { lat: Some(val), ..el })
        } else {
            Err(ErrorView::FailedToParseLat { value: val })
        }
    } else if key == "lon"@ {
        if float_text(val) {
            Ok(ElementView { lon: Some(val), ..el })
        } else {
            Err(ErrorView::FailedToParseLon { value: val })
        }
    } else {
        Ok(el)
    }
}

/// `val` read as the field `key` of a relation member.
pub open spec fn member_field(m: MemberView, key: Seq<char>, val: Seq<char>) -> Result<
    MemberView,
    ErrorView,
> {
    if key == "type"@ {
        if val == "way"@ {
            Ok(MemberView { member_type: Some(OsmRelMemberType::Way), ..m })
        } else if val == "node"@ {
            Ok(MemberView { member_type: Some(OsmRelMemberType::Node), ..m })
        } else {
            Err(ErrorView::UnknownMemberType { member_type: val })
        }
    } else if key == "ref"@ {
        match u64_text_value(val) {
            Some(v) => Ok(MemberView { member_ref: Some(v), ..m }),
            None => Err(ErrorView::FailedToParseNodeId { value: val }),
        }
    } else if key == "role"@ {
        let role = if val == "from"@ {
            RoleView::From
        } else if val == "to"@ {
            RoleView::To
        } else if val == "via"@ {
            RoleView::Via
        } else {
            RoleView::Other(val)
        };
        Ok(MemberView { role: Some(role), ..m })
    } else {
        Ok(m)
    }
}

/// The text that names a member role in OSM data.
pub open spec fn role_text(r: RoleView) -> Seq<char> {
    match r {
        RoleView::From => "from"@,
        RoleView::To => "to"@,
        RoleView::Via => "via"@,
        RoleView::Other(s) => s,
    }
}

/// Reading a member's `role` always succeeds and sets only the role, to the
/// role that the text names: `from`, `to` and `via` become the roles From, To
/// and Via, and only any other text is kept as an Other role.
pub proof fn lemma_member_role_read(m: MemberView, v: Seq<char>)
    ensures
        member_field(m, "role"@, v) matches Ok(m2) && m2.role matches Some(r) && role_text(r) == v
            && (r is Other ==> v != "from"@ && v != "to"@ && v != "via"@)
            && m2.member_type == m.member_type && m2.member_ref == m.member_ref,
        member_field(m, "role"@, "to"@) == Ok::<MemberView, ErrorView>(
            MemberView { role: Some(RoleView::To), ..m },
        ),
{
    reveal_strlit("role");
    reveal_strlit("type");
    reveal_strlit("ref");
    reveal_strlit("from");
    reveal_strlit("to");
    assert("role"@[0] != "type"@[0]);
    assert("role"@[1] != "ref"@[1]);
    assert("to"@[0] != "from"@[0]);
}

/// A member with no field read yet.
pub open spec fn empty_member() -> MemberView {
    MemberView { member_type: None, member_ref: None, role: None }
}

/// The effect of the value `val` of `key` on the element being read, where the
/// reader stands: the new state, and the error if the value is refused (the
/// `nodes` list of the element exists from the first node id read, even a
/// refused one).
pub open spec fn record_value(p: ParserView, key: Seq<char>, val: Seq<char>) -> (
    ParserView,
    Option<ErrorView>,
) {
    match p.current {
        None => (p, None),
        Some(el) => if p.location == elements_obj_location() {
            match element_field(el, key, val) {
                Ok(e2) => (with_current(p, e2), None),
                Err(e) => (p, Some(e)),
            }
        } else if p.location == tags_obj_location() {
            let tags = match el.tags {
                Some(t) => t,
                None => Map::empty(),
            };
            (with_current(p, ElementView { tags: Some(tags.insert(key, val)), ..el }), None)
        } else if p.location == nodes_list_location() {
            let nodes = match el.nodes {
                Some(n) => n,
                None => seq![],
            };
            match u64_text_value(val) {
                Some(v) => (with_current(p, ElementView { nodes: Some(nodes.push(v)), ..el }), None),
                None => (
                    with_current(p, ElementView { nodes: Some(nodes), ..el }),
                    Some(ErrorView::FailedToParseNodeId { value: val }),
                ),
            }
        } else if p.location == members_obj_location() {
            match el.members {
                Some(ms) => if ms.len() > 0 {
                    match member_field(ms.last(), key, val) {
                        Ok(m2) => (
                            with_current(
                                p,
                                ElementView { members: Some(ms.update(ms.len() - 1, m2)), ..el },
                            ),
                            None,
                        ),
                        Err(e) => (p, Some(e)),
                    }
                } else {
                    (p, None)
                },
                None => (p, None),
            }
        } else {
            (p, None)
        },
    }
}

/// A string or number value `val` read where the reader stands: a value that
/// directly follows its key is recorded; the key is then consumed, except
/// inside the `nodes` list, where it stays for the next id.
pub open spec fn value_step(p: ParserView, val: Seq<char>) -> (ParserView, Option<ErrorView>) {
    match p.prev_key {
        None => (ParserView { prev_string: Some(val), ..p }, None),
        Some(key) => {
            let (q, err) = if p.prev_string is None {
                record_value(p, key, val)
            } else {
                (p, None)
            };
            match err {
                Some(e) => (q, Some(e)),
                None => {
                    let q2 = if q.location == nodes_list_location() {
                        q
                    } else {
                        ParserView { prev_key: None, ..q }
                    };
                    (ParserView { prev_string: Some(val), ..q2 }, None)
                },
            }
        },
    }
}

/// An object opens under the last key; it starts a new element directly in
/// `elements`, and a new member in the `members` list of the element.
pub open spec fn curly_open(p: ParserView) -> ParserView {
    let loc = p.location.push(LocationView::InObject(p.prev_key));
    let current = match p.current {
        None => if loc == elements_obj_location() {
            Some(empty_element())
        } else {
            None
        },
        Some(el) => if loc == members_obj_location() {
            let ms = match el.members {
                Some(m) => m,
                None => seq![],
            };
            Some(ElementView { members: Some(ms.push(empty_member())), ..el })
        } else {
            Some(el)
        },
    };
    ParserView { location: loc, prev_key: None, prev_string: None, current, failed: p.failed }
}

/// An object closes: its key becomes the last key again, and an element that
/// closes directly in `elements` is handed out.
pub open spec fn curly_close(p: ParserView) -> (ParserView, Result<Option<ElementView>, ErrorView>) {
    if p.location.len() > 0 && p.location.last() is InList {
        (
            p,
            Err(
                ErrorView::UnexpectedToken {
                    token: JsonTokenKind::CurlyClose,
                    context: "not in a object"@,
                },
            ),
        )
    } else {
        let q = if p.location.len() > 0 {
            ParserView {
                prev_key: match p.location.last() {
                    LocationView::InObject(k) => k,
                    LocationView::InList(_) => None,
                },
                location: p.location.drop_last(),
                ..p
            }
        } else {
            p
        };
        let q = ParserView { prev_string: None, ..q };
        if q.location == elements_list_location() {
            (ParserView { current: None, ..q }, Ok(q.current))
        } else {
            (q, Ok(None))
        }
    }
}

/// The effect of one token: the new state, and the element handed out or the
/// error that the token causes.
pub open spec fn token_step(p: ParserView, tok: TokenView) -> (
    ParserView,
    Result<Option<ElementView>, ErrorView>,
) {
    match tok.0 {
        JsonTokenKind::BracketOpen => match p.prev_key {
            Some(k) => (ParserView { location: p.location.push(LocationView::InList(k)), ..p }, Ok(None)),
            None => (p, Err(ErrorView::ArrayFoundInRoot)),
        },
        JsonTokenKind::BracketClose => if p.location.len() == 0 {
            (p, Ok(None))
        } else if p.location.last() is InList {
            (ParserView { location: p.location.drop_last(), ..p }, Ok(None))
        } else {
            (
                p,
                Err(
                    ErrorView::UnexpectedToken {
                        token: JsonTokenKind::BracketClose,
                        context: "not in a list"@,
                    },
                ),
            )
        },
        JsonTokenKind::CurlyOpen => (curly_open(p), Ok(None)),
        JsonTokenKind::CurlyClose => curly_close(p),
        JsonTokenKind::Colon => (ParserView { prev_key: p.prev_string, prev_string: None, ..p }, Ok(None)),
        JsonTokenKind::Comma => (ParserView { prev_string: None, ..p }, Ok(None)),
        JsonTokenKind::Str | JsonTokenKind::Number => match tok.1 {
            None => (p, Err(ErrorView::UnexpectedBuffer)),
            Some(bytes) => if !valid_utf8(bytes) {
                (p, Err(ErrorView::Utf8ParseError))
            } else {
                let (q, err) = value_step(p, remove_all(decode_utf8(bytes), seq!['"']));
                match err {
                    Some(e) => (q, Err(e)),
                    None => (q, Ok(None)),
                }
            },
        },
        _ => (p, Ok(None)),
    }
}

/// The elements handed out by one token.
pub open spec fn handed_out(out: Option<ElementView>) -> Seq<ElementView> {
    match out {
        Some(el) => seq![el],
        None => seq![],
    }
}

/// The tokens read one after the other until the first error: the state they
/// leave and the elements handed out, or the error.
pub open spec fn feed_tokens(p: ParserView, toks: Seq<TokenView>) -> (
    ParserView,
    Result<Seq<ElementView>, ErrorView>,
)
    decreases toks.len(),
{
    if toks.len() == 0 {
        (p, Ok(seq![]))
    } else {
        let (q, r) = feed_tokens(p, toks.drop_last());
        match r {
            Err(e) => (q, Err(e)),
            Ok(els) => {
                let (q2, r2) = token_step(q, toks.last());
                match r2 {
                    Err(e) => (q2, Err(e)),
                    Ok(out) => (q2, Ok(els + handed_out(out))),
                }
            },
        }
    }
}

/// Tokens read by the reader: a reader that has failed refuses them;
/// otherwise they are read (see `feed_tokens`), and an error stops the
/// reader.
pub open spec fn parse_tokens_step(p: ParserView, toks: Seq<TokenView>) -> (
    ParserView,
    Result<Seq<ElementView>, ErrorView>,
) {
    match p.failed {
        Some(e) => (p, Err(ErrorView::ParserInErrorState { error: Box::new(e) })),
        None => {
            let (q, r) = feed_tokens(p, toks);
            match r {
                Ok(els) => (q, Ok(els)),
                Err(e) => if e is ParserInErrorState {
                    (q, Err(e))
                } else {
                    (ParserView { failed: Some(e), ..q }, Err(e))
                },
            }
        },
    }
}

/// A line read by the reader: its tokens (see `lexed_json_tokens`) read as
/// `parse_tokens_step` reads them.
pub open spec fn parse_line_step(p: ParserView, line: Seq<u8>) -> (
    ParserView,
    Result<Seq<ElementView>, ErrorView>,
) {
    parse_tokens_step(p, lexed_json_tokens(line))
}

/// The views of tokens.
pub open spec fn token_views(tokens: Seq<JsonToken>) -> Seq<TokenView> {
    tokens.map_values(|t: JsonToken| t@)
}

/// The reader of a document.
#[derive(Debug)]
pub struct OsmJsonParser {
    location: Vec<ParserStateLocation>,
    prev_key: Option<String>,
    prev_string: Option<String>,
    current_element: Option<OsmElement>,
    prev_error: Option<OsmJsonParserError>,
}

impl View for OsmJsonParser {
    type V = ParserView;

    closed spec fn view(&self) -> ParserView {
        ParserView {
            location: self.location@.map_values(|l: ParserStateLocation| l@),
            prev_key: opt_text(self.prev_key),
            prev_string: opt_text(self.prev_string),
            current: match self.current_element {
                Some(el) => Some(el@),
                None => None,
            },
            failed: match self.prev_error {
                Some(e) => Some(error_view(e)),
                None => None,
            },
        }
    }
}

/// The error of a step, if any.
pub open spec fn step_error(r: Result<(), OsmJsonParserError>) -> Option<ErrorView> {
    match r {
        Ok(()) => None,
        Err(e) => Some(error_view(e)),
    }
}

/// The element or error of a step.
pub open spec fn step_result(r: Result<Option<OsmElement>, OsmJsonParserError>) -> Result<
    Option<ElementView>,
    ErrorView,
> {
    match r {
        Ok(Some(el)) => Ok(Some(el@)),
        Ok(None) => Ok(None),
        Err(e) => Err(error_view(e)),
    }
}

/// Whether `loc` is an object opened under `key`.
fn is_object_under(loc: &ParserStateLocation, key: Option<&str>) -> (r: bool)
    ensures
        r == (loc@ == LocationView::InObject(
            match key {
                Some(k) => Some(k@),
                None => None,
            },
        )),
{
    match (loc, key) {
        (ParserStateLocation::InObject(None), None) => true,
        (ParserStateLocation::InObject(Some(k)), Some(want)) => str_eq(k.as_str(), want),
        _ => false,
    }
}

/// Whether `loc` is a list opened under `key`.
fn is_list_under(loc: &ParserStateLocation, key: &str) -> (r: bool)
    ensures
        r == (loc@ == LocationView::InList(key@)),
{
    match loc {
        ParserStateLocation::InList(k) => str_eq(k.as_str(), key),
        _ => false,
    }
}

impl OsmJsonParser {
    /// A reader before the first line of a document.
    pub fn new() -> (res: Self)
        ensures
            res@ == initial_parser(),
    {
        let res = OsmJsonParser {
            location: Vec::new(),
            prev_key: None,
            prev_string: None,
            current_element: None,
            prev_error: None,
        };
        assert(res@.location =~= Seq::<LocationView>::empty());
        res
    }

    proof fn lemma_location_at(&self, i: int)
        requires
            0 <= i < self.location.len(),
        ensures
            self@.location[i] == self.location@[i]@,
            self@.location.len() == self.location.len(),
    {
    }

    proof fn lemma_location_len(&self)
        ensures
            self@.location.len() == self.location.len(),
    {
    }

    proof fn lemma_patterns()
        ensures
            elements_list_location().len() == 2,
            elements_obj_location().len() == 3,
            tags_obj_location().len() == 4,
            nodes_list_location().len() == 4,
            members_obj_location().len() == 5,
            elements_obj_location()[0] == LocationView::InObject(None),
            elements_obj_location()[1] == LocationView::InList("elements"@),
            elements_obj_location()[2] == LocationView::InObject(Some("elements"@)),
            tags_obj_location()[0] == LocationView::InObject(None),
            tags_obj_location()[1] == LocationView::InList("elements"@),
            tags_obj_location()[2] == LocationView::InObject(Some("elements"@)),
            tags_obj_location()[3] == LocationView::InObject(Some("tags"@)),
            nodes_list_location()[0] == LocationView::InObject(None),
            nodes_list_location()[1] == LocationView::InList("elements"@),
            nodes_list_location()[2] == LocationView::InObject(Some("elements"@)),
            nodes_list_location()[3] == LocationView::InList("nodes"@),
            members_obj_location()[0] == LocationView::InObject(None),
            members_obj_location()[1] == LocationView::InList("elements"@),
            members_obj_location()[2] == LocationView::InObject(Some("elements"@)),
            members_obj_location()[3] == LocationView::InList("members"@),
            members_obj_location()[4] == LocationView::InObject(Some("members"@)),
    {
    }

    fn is_in_elements_list(&self) -> (r: bool)
        ensures
            r == (self@.location == elements_list_location()),
    {
        let r = self.location.len() == 2 && is_object_under(&self.location[0], None)
            && is_list_under(&self.location[1], "elements");
        proof {
            self.lemma_location_len();
            Self::lemma_patterns();
            if self.location.len() == 2 {
                self.lemma_location_at(0);
                self.lemma_location_at(1);
                if r {
                    assert(self@.location =~= elements_list_location());
                }
            }
        }
        r
    }

    fn is_in_elements_obj(&self) -> (r: bool)
        ensures
            r == (self@.location == elements_obj_location()),
    {
        let r = self.location.len() == 3 && is_object_under(&self.location[0], None)
            && is_list_under(&self.location[1], "elements") && is_object_under(
            &self.location[2],
            Some("elements"),
        );
        proof {
            self.lemma_location_len();
            Self::lemma_patterns();
            if self.location.len() == 3 {
                self.lemma_location_at(0);
                self.lemma_location_at(1);
                self.lemma_location_at(2);
                if r {
                    assert(self@.location =~= elements_obj_location());
                } else {
                    assert(elements_obj_location()[2] == LocationView::InObject(Some("elements"@)));
                }
            }
        }
        r
    }

    fn is_in_tags_obj(&self) -> (r: bool)
        ensures
            r == (self@.location == tags_obj_location()),
    {
        let r = self.location.len() == 4 && is_object_under(&self.location[0], None)
            && is_list_under(&self.location[1], "elements") && is_object_under(
            &self.location[2],
            Some("elements"),
        ) && is_object_under(&self.location[3], Some("tags"));
        proof {
            self.lemma_location_len();
            Self::lemma_patterns();
            if self.location.len() == 4 {
                self.lemma_location_at(0);
                self.lemma_location_at(1);
                self.lemma_location_at(2);
                self.lemma_location_at(3);
                if r {
                    assert(self@.location =~= tags_obj_location());
                } else {
                    assert(tags_obj_location()[2] == LocationView::InObject(Some("elements"@)));
                    assert(tags_obj_location()[3] == LocationView::InObject(Some("tags"@)));
                }
            }
        }
        r
    }

    fn is_in_nodes_list(&self) -> (r: bool)
        ensures
            r == (self@.location == nodes_list_location()),
    {
        let r = self.location.len() == 4 && is_object_under(&self.location[0], None)
            && is_list_under(&self.location[1], "elements") && is_object_under(
            &self.location[2],
            Some("elements"),
        ) && is_list_under(&self.location[3], "nodes");
        proof {
            self.lemma_location_len();
            Self::lemma_patterns();
            if self.location.len() == 4 {
                self.lemma_location_at(0);
                self.lemma_location_at(1);
                self.lemma_location_at(2);
                self.lemma_location_at(3);
                if r {
                    assert(self@.location =~= nodes_list_location());
                } else {
                    assert(nodes_list_location()[2] == LocationView::InObject(Some("elements"@)));
                    assert(nodes_list_location()[3] == LocationView::InList("nodes"@));
                }
            }
        }
        r
    }

    fn is_in_members_obj(&self) -> (r: bool)
        ensures
            r == (self@.location == members_obj_location()),
    {
        let r = self.location.len() == 5 && is_object_under(&self.location[0], None)
            && is_list_under(&self.location[1], "elements") && is_object_under(
            &self.location[2],
            Some("elements"),
        ) && is_list_under(&self.location[3], "members") && is_object_under(
            &self.location[4],
            Some("members"),
        );
        proof {
            self.lemma_location_len();
            Self::lemma_patterns();
            if self.location.len() == 5 {
                self.lemma_location_at(0);
                self.lemma_location_at(1);
                self.lemma_location_at(2);
                self.lemma_location_at(3);
                self.lemma_location_at(4);
                if r {
                    assert(self@.location =~= members_obj_location());
                } else {
                    assert(members_obj_location()[2] == LocationView::InObject(Some("elements"@)));
                    assert(members_obj_location()[3] == LocationView::InList("members"@));
                    assert(members_obj_location()[4] == LocationView::InObject(Some("members"@)));
                }
            }
        }
        r
    }

    proof fn lemma_push_location(&self, old_parser: &Self, loc: ParserStateLocation)
        requires
            self.location@ == old_parser.location@.push(loc),
        ensures
            self@.location == old_parser@.location.push(loc@),
    {
        assert(self@.location =~= old_parser@.location.push(loc@));
    }

    proof fn lemma_pop_location(&self, old_parser: &Self)
        requires
            old_parser.location@.len() > 0,
            self.location@ == old_parser.location@.drop_last(),
        ensures
            self@.location == old_parser@.location.drop_last(),
    {
        assert(self@.location =~= old_parser@.location.drop_last());
    }

    fn set_bracket_open(&mut self) -> (r: Result<(), OsmJsonParserError>)
        ensures
            token_step(old(self)@, (JsonTokenKind::BracketOpen, None)) == (
                final(self)@,
                step_result(unit_ok(r)),
            ),
    {
        if let Some(key) = &self.prev_key {
            let k = key.clone();
            let ghost before = *self;
            self.location.push(ParserStateLocation::InList(k));
            proof {
                self.lemma_push_location(&before, ParserStateLocation::InList(k));
            }
            return Ok(());
        }
        Err(OsmJsonParserError::ArrayFoundInRoot)
    }

    fn set_bracket_close(&mut self) -> (r: Result<(), OsmJsonParserError>)
        ensures
            token_step(old(self)@, (JsonTokenKind::BracketClose, None)) == (
                final(self)@,
                step_result(unit_ok(r)),
            ),
    {
        proof {
            reveal_strlit("not in a list");
        }
        let n = self.location.len();
        if n > 0 {
            proof {
                self.lemma_location_at(n - 1);
            }
            let is_list = match &self.location[n - 1] {
                ParserStateLocation::InList(_) => true,
                _ => false,
            };
            if is_list {
                let ghost before = *self;
                self.location.pop();
                proof {
                    self.lemma_pop_location(&before);
                }
            } else {
                return Err(
                    OsmJsonParserError::UnexpectedToken {
                        token: JsonTokenKind::BracketClose,
                        context: String::from_str("not in a list"),
                    },
                );
            }
        }
        Ok(())
    }

    fn set_curly_open(&mut self)
        ensures
            final(self)@ == curly_open(old(self)@),
    {
        let key = clone_text(&self.prev_key);
        let ghost before = *self;
        self.location.push(ParserStateLocation::InObject(key));
        proof {
            self.lemma_push_location(&before, ParserStateLocation::InObject(key));
        }
        if self.current_element.is_none() {
            if self.is_in_elements_obj() {
                self.current_element = Some(OsmElement::new());
            }
        } else if self.is_in_members_obj() {
            let mut el = self.current_element.take().unwrap();
            let ghost old_el = el@;
            let mut members = match el.members.take() {
                Some(m) => m,
                None => Vec::new(),
            };
            let ghost ms = members@;
            assert(members_view(ms) =~= match old_el.members {
                Some(m) => m,
                None => seq![],
            });
            let member = OsmRelMember { member_type: None, member_ref: None, role: None };
            members.push(member);
            proof {
                assert(members_view(members@) =~= members_view(ms).push(empty_member()));
            }
            el.members = Some(members);
            assert(el@ == ElementView { members: Some(members_view(ms).push(empty_member())), ..old_el });
            self.current_element = Some(el);
        }
        self.prev_key = None;
        self.prev_string = None;
        assert(self@.location == old(self)@.location.push(LocationView::InObject(old(self)@.prev_key)));
    }

    fn set_curly_close(&mut self) -> (r: Result<Option<OsmElement>, OsmJsonParserError>)
        ensures
            curly_close(old(self)@) == (final(self)@, step_result(r)),
    {
        proof {
            reveal_strlit("not in a object");
        }
        let n = self.location.len();
        if n > 0 {
            proof {
                self.lemma_location_at(n - 1);
            }
            let key = match &self.location[n - 1] {
                ParserStateLocation::InObject(k) => Some(clone_text(k)),
                ParserStateLocation::InList(_) => None,
            };
            match key {
                Some(k) => {
                    self.prev_key = k;
                    let ghost before = *self;
                    self.location.pop();
                    proof {
                        self.lemma_pop_location(&before);
                    }
                },
                None => {
                    return Err(
                        OsmJsonParserError::UnexpectedToken {
                            token: JsonTokenKind::CurlyClose,
                            context: String::from_str("not in a object"),
                        },
                    );
                },
            }
        }
        self.prev_string = None;
        if self.is_in_elements_list() {
            return Ok(self.current_element.take());
        }
        Ok(None)
    }

    /// Records the value `val` of the pending key in the element being read
    /// (when no other value came since the key).
    fn check_update_current_element(&mut self, val: &String) -> (r: Result<(), OsmJsonParserError>)
        ensures
            ({
                let (q, err) = match old(self)@.prev_key {
                    Some(key) => if old(self)@.prev_string is None {
                        record_value(old(self)@, key, val@)
                    } else {
                        (old(self)@, None)
                    },
                    None => (old(self)@, None),
                };
                final(self)@ == q && step_error(r) == err
            }),
    {
        if self.prev_string.is_some() {
            return Ok(());
        }
        let key = match &self.prev_key {
            Some(k) => k.clone(),
            None => return Ok(()),
        };
        if self.current_element.is_none() {
            return Ok(());
        }
        if self.is_in_elements_obj() {
            let mut el = self.current_element.take().unwrap();
            let r = set_element_field(&mut el, &key, val);
            self.current_element = Some(el);
            return r;
        }
        if self.is_in_tags_obj() {
            let mut el = self.current_element.take().unwrap();
            let mut tags = match el.tags.take() {
                Some(t) => t,
                None => OsmTags::new(),
            };
            tags.insert(key, val.clone());
            el.tags = Some(tags);
            self.current_element = Some(el);
            return Ok(());
        }
        if self.is_in_nodes_list() {
            let mut el = self.current_element.take().unwrap();
            let mut nodes = match el.nodes.take() {
                Some(n) => n,
                None => Vec::new(),
            };
            let parsed = parse_u64(val.as_str());
            let r = match parsed {
                Some(id) => {
                    nodes.push(id);
                    Ok(())
                },
                None => Err(OsmJsonParserError::FailedToParseNodeId { value: val.clone() }),
            };
            el.nodes = Some(nodes);
            self.current_element = Some(el);
            return r;
        }
        if self.is_in_members_obj() {
            let mut el = self.current_element.take().unwrap();
            let ghost old_el = el@;
            let r = match el.members.take() {
                Some(mut members) => {
                    if members.len() > 0 {
                        let ghost ms = members@;
                        let mut m = members.pop().unwrap();
                        let r = set_member_field(&mut m, &key, val);
                        members.push(m);
                        proof {
                            assert(members_view(members@) =~= members_view(ms).update(
                                ms.len() - 1,
                                m@,
                            ));
                            if r is Err {
                                assert(members_view(members@) =~= members_view(ms));
                            }
                        }
                        el.members = Some(members);
                        r
                    } else {
                        el.members = Some(members);
                        Ok(())
                    }
                },
                None => Ok(()),
            };
            proof {
                if r is Err {
                    assert(el@ == old_el);
                }
            }
            self.current_element = Some(el);
            return r;
        }
        Ok(())
    }

    /// Reads one token.
    fn read_token(&mut self, token: &JsonToken) -> (r: Result<Option<OsmElement>, OsmJsonParserError>)
        ensures
            token_step(old(self)@, token@) == (final(self)@, step_result(r)),
    {
        proof {
            reveal_strlit("\"");
        }
        match token.kind {
            JsonTokenKind::BracketOpen => match self.set_bracket_open() {
                Ok(()) => Ok(None),
                Err(e) => Err(e),
            },
            JsonTokenKind::BracketClose => match self.set_bracket_close() {
                Ok(()) => Ok(None),
                Err(e) => Err(e),
            },
            JsonTokenKind::CurlyOpen => {
                self.set_curly_open();
                Ok(None)
            },
            JsonTokenKind::CurlyClose => self.set_curly_close(),
            JsonTokenKind::Colon => {
                self.prev_key = self.prev_string.take();
                Ok(None)
            },
            JsonTokenKind::Comma => {
                self.prev_string = None;
                Ok(None)
            },
            JsonTokenKind::Str | JsonTokenKind::Number => match &token.bytes {
                Some(bytes) => match utf8_to_string(bytes) {
                    Ok(text) => {
                        let quote = "\"";
                        assert(quote@ =~= seq!['"']);
                        let t = text.as_str();
                        assert(t@ == decode_utf8(bytes@));
                        let val = remove_occurrences(t, quote);
                        assert(val@ == remove_all(decode_utf8(bytes@), seq!['"']));
                        match self.read_value(val) {
                            Ok(()) => Ok(None),
                            Err(e) => Err(e),
                        }
                    },
                    Err(error) => Err(OsmJsonParserError::Utf8ParseError { error }),
                },
                None => Err(OsmJsonParserError::UnexpectedBuffer),
            },
            _ => Ok(None),
        }
    }

    /// Reads the tokens of a line, unless the reader has failed before.
    fn parse_tokens_internal(&mut self, tokens: &Vec<JsonToken>) -> (r: Result<
        Vec<OsmElement>,
        OsmJsonParserError,
    >)
        ensures
            (match old(self)@.failed {
                Some(e) => (old(self)@, Err(ErrorView::ParserInErrorState { error: Box::new(e) })),
                None => feed_tokens(old(self)@, token_views(tokens@)),
            }) == (final(self)@, elements_result(r)),
    {
        if let Some(error) = &self.prev_error {
            return Err(OsmJsonParserError::ParserInErrorState { error: Box::new(clone_error(error)) });
        }
        let ghost p0 = self@;
        let ghost toks = token_views(tokens@);
        let mut osm_elements: Vec<OsmElement> = Vec::new();
        let mut i: usize = 0;
        assert(toks.take(0) =~= Seq::<TokenView>::empty());
        assert(elements_view(osm_elements@) =~= Seq::<ElementView>::empty());
        while i < tokens.len()
            invariant
                i <= tokens.len(),
                p0 == old(self)@,
                p0.failed is None,
                toks == token_views(tokens@),
                feed_tokens(p0, toks.take(i as int)) == (self@, Ok::<Seq<ElementView>, ErrorView>(
                    elements_view(osm_elements@),
                )),
            decreases tokens.len() - i,
        {
            let ghost before = self@;
            let r = self.read_token(&tokens[i]);
            proof {
                assert(toks.take(i + 1).drop_last() =~= toks.take(i as int));
                assert(toks.take(i + 1).last() == tokens@[i as int]@);
                assert(token_step(before, toks.take(i + 1).last()) == (self@, step_result(r)));
            }
            match r {
                Err(e) => {
                    proof {
                        assert(feed_tokens(p0, toks.take(i + 1)) == (self@, Err::<Seq<ElementView>, ErrorView>(error_view(e))));
                        lemma_feed_stops(p0, toks, i + 1);
                    }
                    return Err(e);
                },
                Ok(Some(el)) => {
                    let ghost before = osm_elements@;
                    osm_elements.push(el);
                    proof {
                        assert(elements_view(osm_elements@) =~= elements_view(before) + handed_out(
                            Some(el@),
                        ));
                    }
                },
                Ok(None) => {
                    proof {
                        assert(elements_view(osm_elements@) =~= elements_view(osm_elements@)
                            + handed_out(None));
                    }
                },
            }
            i = i + 1;
        }
        assert(toks.take(tokens.len() as int) =~= toks);
        Ok(osm_elements)
    }

    /// Reads a line of the document: the elements whose objects close on it,
    /// in order. An error on the line stops the reader: every later line is
    /// refused with `ParserInErrorState` and that first error.
    pub fn parse_line(&mut self, line: Vec<u8>) -> (r: Result<Vec<OsmElement>, OsmJsonParserError>)
        ensures
            parse_line_step(old(self)@, line@) == (final(self)@, elements_result(r)),
    {
        let tokens = lex_json_line(&line);
        self.parse_tokens(&tokens)
    }

    /// Reads the tokens of a line (as `parse_line` reads the tokens that the
    /// lexer finds): the elements whose objects close on them, in order. An
    /// error stops the reader, as in `parse_line`.
    pub fn parse_tokens(&mut self, tokens: &Vec<JsonToken>) -> (r: Result<Vec<OsmElement>, OsmJsonParserError>)
        ensures
            parse_tokens_step(old(self)@, token_views(tokens@)) == (final(self)@, elements_result(r)),
    {
        let parse_result = self.parse_tokens_internal(tokens);
        match parse_result {
            Err(error) => {
                match &error {
                    OsmJsonParserError::ParserInErrorState { .. } => {},
                    _ => self.prev_error = Some(clone_error(&error)),
                }
                Err(error)
            },
            Ok(elements) => Ok(elements),
        }
    }

    /// Reads a string or number value.
    fn read_value(&mut self, val: String) -> (r: Result<(), OsmJsonParserError>)
        ensures
            ({
                let (q, err) = value_step(old(self)@, val@);
                final(self)@ == q && step_error(r) == err
            }),
    {
        if self.prev_key.is_some() {
            let r = self.check_update_current_element(&val);
            if r.is_err() {
                return r;
            }
            if !self.is_in_nodes_list() {
                self.prev_key = None;
            }
        }
        self.prev_string = Some(val);
        Ok(())
    }
}

/// Records `val` as the field `key` of `el`; a refused value leaves `el` as it was.
fn set_element_field(el: &mut OsmElement, key: &String, val: &String) -> (r: Result<
    (),
    OsmJsonParserError,
>)
    ensures
        match element_field(old(el)@, key@, val@) {
            Ok(e2) => final(el)@ == e2 && r is Ok,
            Err(e) => final(el)@ == old(el)@ && step_error(r) == Some(e),
        },
{
    let k = key.as_str();
    let v = val.as_str();
    if str_eq(k, "type") {
        if str_eq(v, "node") {
            el.element_type = Some(OsmElementType::Node);
        } else if str_eq(v, "way") {
            el.element_type = Some(OsmElementType::Way);
        } else if str_eq(v, "relation") {
            el.element_type = Some(OsmElementType::Relation);
        } else {
            return Err(OsmJsonParserError::UnknownNodeType { node_type: val.clone() });
        }
    } else if str_eq(k, "id") {
        match parse_u64(v) {
            Some(id) => el.id = Some(id),
            None => return Err(OsmJsonParserError::FailedToParseNodeId { value: val.clone() }),
        }
    } else if str_eq(k, "lat") {
        if is_float_text(v) {
            el.lat = Some(val.clone());
        } else {
            return Err(OsmJsonParserError::FailedToParseLat { value: val.clone() });
        }
    } else if str_eq(k, "lon") {
        if is_float_text(v) {
            el.lon = Some(val.clone());
        } else {
            return Err(OsmJsonParserError::FailedToParseLon { value: val.clone() });
        }
    }
    Ok(())
}

/// Records `val` as the field `key` of the member `m`; a refused value leaves
/// `m` as it was.
fn set_member_field(m: &mut OsmRelMember, key: &String, val: &String) -> (r: Result<
    (),
    OsmJsonParserError,
>)
    ensures
        match member_field(old(m)@, key@, val@) {
            Ok(m2) => final(m)@ == m2 && r is Ok,
            Err(e) => final(m)@ == old(m)@ && step_error(r) == Some(e),
        },
{
    let k = key.as_str();
    let v = val.as_str();
    if str_eq(k, "type") {
        if str_eq(v, "way") {
            m.member_type = Some(OsmRelMemberType::Way);
        } else if str_eq(v, "node") {
            m.member_type = Some(OsmRelMemberType::Node);
        } else {
            return Err(OsmJsonParserError::UnknownMemberType { member_type: val.clone() });
        }
    } else if str_eq(k, "ref") {
        match parse_u64(v) {
            Some(r) => m.member_ref = Some(r),
            None => return Err(OsmJsonParserError::FailedToParseNodeId { value: val.clone() }),
        }
    } else if str_eq(k, "role") {
        let role = if str_eq(v, "from") {
            OsmRelMemberRole::From
        } else if str_eq(v, "to") {
            OsmRelMemberRole::To
        } else if str_eq(v, "via") {
            OsmRelMemberRole::Via
        } else {
            OsmRelMemberRole::Other(val.clone())
        };
        m.role = Some(role);
    }
    Ok(())
}

/// Once the tokens read so far end in an error, the tokens after them change
/// nothing.
proof fn lemma_feed_stops(p: ParserView, toks: Seq<TokenView>, k: int)
    requires
        0 <= k <= toks.len(),
        feed_tokens(p, toks.take(k)).1 is Err,
    ensures
        feed_tokens(p, toks) == feed_tokens(p, toks.take(k)),
    decreases toks.len() - k,
{
    if k < toks.len() {
        assert(toks.take(k + 1).drop_last() =~= toks.take(k));
        lemma_feed_stops(p, toks, k + 1);
    } else {
        assert(toks.take(k) =~= toks);
    }
}

/// The elements as values.
pub open spec fn elements_view(els: Seq<OsmElement>) -> Seq<ElementView> {
    els.map_values(|e: OsmElement| e@)
}

/// The elements or error of a line.
pub open spec fn elements_result(r: Result<Vec<OsmElement>, OsmJsonParserError>) -> Result<
    Seq<ElementView>,
    ErrorView,
> {
    match r {
        Ok(els) => Ok(elements_view(els@)),
        Err(e) => Err(error_view(e)),
    }
}

/// A step without an element as a step result.
pub open spec fn unit_ok(r: Result<(), OsmJsonParserError>) -> Result<
    Option<OsmElement>,
    OsmJsonParserError,
> {
    match r {
        Ok(()) => Ok(None),
        Err(e) => Err(e),
    }
}

/// The error for a field that an element of type `element_type` lacks.
pub open spec fn missing_value(element_type: Seq<char>, value: Seq<char>) -> ErrorView {
    ErrorView::MissingValueForElement { element_type, value }
}

/// Why a node cannot be made of the element, if it cannot: it is not a node,
/// or it lacks its id, latitude or longitude (the first one missing).
pub open spec fn node_problem(el: ElementView) -> Option<ErrorView> {
    if el.element_type != Some(OsmElementType::Node) {
        Some(ErrorView::ElementIsNotNode)
    } else if el.id is None {
        Some(missing_value("node"@, "id"@))
    } else if el.lat is None {
        Some(missing_value("node"@, "lat"@))
    } else if el.lon is None {
        Some(missing_value("node"@, "lon"@))
    } else {
        None
    }
}

/// Why a way cannot be made of the element, if it cannot.
pub open spec fn way_problem(el: ElementView) -> Option<ErrorView> {
    if el.element_type != Some(OsmElementType::Way) {
        Some(ErrorView::ElementIsNotWay)
    } else if el.id is None {
        Some(missing_value("way"@, "id"@))
    } else if el.nodes is None {
        Some(missing_value("way"@, "node_ids"@))
    } else {
        None
    }
}

/// Why a relation member cannot be made of `m`, if it cannot: the first of
/// its type, role and reference that is missing.
pub open spec fn member_problem(m: MemberView) -> Option<ErrorView> {
    if m.member_type is None {
        Some(missing_value("member"@, "member_type"@))
    } else if m.role is None {
        Some(missing_value("member"@, "role"@))
    } else if m.member_ref is None {
        Some(missing_value("member"@, "member_role"@))
    } else {
        None
    }
}

/// The problem of the first member that has one.
pub open spec fn first_member_problem(ms: Seq<MemberView>) -> Option<ErrorView>
    decreases ms.len(),
{
    if ms.len() == 0 {
        None
    } else {
        match first_member_problem(ms.drop_last()) {
            Some(e) => Some(e),
            None => member_problem(ms.last()),
        }
    }
}

/// Why a relation cannot be made of the element, if it cannot (an element of
/// another type is reported as `ElementIsNotWay`).
pub open spec fn relation_problem(el: ElementView) -> Option<ErrorView> {
    if el.element_type != Some(OsmElementType::Relation) {
        Some(ErrorView::ElementIsNotWay)
    } else if el.id is None {
        Some(missing_value("relation"@, "id"@))
    } else if el.tags is None {
        Some(missing_value("relation"@, "tags"@))
    } else if el.members is None {
        Some(missing_value("relation"@, "members"@))
    } else {
        first_member_problem(el.members->0)
    }
}

/// A relation member's role as text.
pub open spec fn relation_role_view(role: OsmRelationMemberRole) -> RoleView {
    match role {
        OsmRelationMemberRole::From => RoleView::From,
        OsmRelationMemberRole::To => RoleView::To,
        OsmRelationMemberRole::Via => RoleView::Via,
        OsmRelationMemberRole::Other(r) => RoleView::Other(r@),
    }
}

/// A relation member's role keeps its name as text: the text of its view is
/// the role's name, and only an Other role is viewed as Other.
pub proof fn lemma_relation_role_view_names(r: OsmRelationMemberRole)
    ensures
        role_text(relation_role_view(r)) == role_name(r),
        relation_role_view(r) is Other <==> r is Other,
{
}

/// Whether `out` is the relation member that `m` describes.
pub open spec fn member_made_of(out: OsmRelationMember, m: MemberView) -> bool {
    &&& m.member_type == Some(
        match out.member_type {
            OsmRelationMemberType::Way => OsmRelMemberType::Way,
            _ => OsmRelMemberType::Node,
        },
    )
    &&& out.member_type != OsmRelationMemberType::Relation
    &&& m.role == Some(relation_role_view(out.role))
    &&& m.member_ref == Some(out.member_ref)
}

proof fn lemma_first_member_problem_prefix(ms: Seq<MemberView>, i: int)
    requires
        0 <= i < ms.len(),
        first_member_problem(ms.take(i)) is None,
        member_problem(ms[i]) is None,
    ensures
        first_member_problem(ms.take(i + 1)) is None,
{
    assert(ms.take(i + 1).drop_last() =~= ms.take(i));
}

proof fn lemma_first_member_problem_stops(ms: Seq<MemberView>, k: int)
    requires
        0 <= k <= ms.len(),
        first_member_problem(ms.take(k)) is Some,
    ensures
        first_member_problem(ms) == first_member_problem(ms.take(k)),
    decreases ms.len() - k,
{
    if k < ms.len() {
        assert(ms.take(k + 1).drop_last() =~= ms.take(k));
        lemma_first_member_problem_stops(ms, k + 1);
    } else {
        assert(ms.take(k) =~= ms);
    }
}

fn missing_value_error(element_type: &str, value: &str) -> (e: OsmJsonParserError)
    ensures
        error_view(e) == missing_value(element_type@, value@),
{
    OsmJsonParserError::MissingValueForElement {
        element_type: String::from_str(element_type),
        value: String::from_str(value),
    }
}

impl OsmElement {
    /// The element's type; an element whose type was not read is an error.
    pub fn get_element_type(&self) -> (r: Result<OsmElementType, OsmJsonParserError>)
        ensures
            match self@.element_type {
                Some(t) => r == Ok::<OsmElementType, OsmJsonParserError>(t),
                None => r matches Err(e) && error_view(e) == ErrorView::MissingElementType {
                    element: self@,
                },
            },
    {
        match self.element_type {
            Some(t) => Ok(t),
            None => Err(OsmJsonParserError::MissingElementType { element: self.clone() }),
        }
    }

    /// The node that the element describes.
    pub fn get_node_element(&self) -> (r: Result<JsonNode, OsmJsonParserError>)
        ensures
            match node_problem(self@) {
                Some(e) => r matches Err(err) && error_view(err) == e,
                None => r matches Ok(node) && Some(node.id) == self@.id && Some(node.lat@)
                    == self@.lat && Some(node.lon@) == self@.lon,
            },
    {
        if let Some(OsmElementType::Node) = self.element_type {
            let id = match self.id {
                Some(id) => id,
                None => return Err(missing_value_error("node", "id")),
            };
            let lat = match &self.lat {
                Some(lat) => lat.clone(),
                None => return Err(missing_value_error("node", "lat")),
            };
            let lon = match &self.lon {
                Some(lon) => lon.clone(),
                None => return Err(missing_value_error("node", "lon")),
            };
            return Ok(JsonNode { id, lat, lon });
        }
        Err(OsmJsonParserError::ElementIsNotNode)
    }

    /// The way that the element describes.
    pub fn get_way_element(&self) -> (r: Result<OsmWay, OsmJsonParserError>)
        ensures
            match way_problem(self@) {
                Some(e) => r matches Err(err) && error_view(err) == e,
                None => r matches Ok(way) && Some(way.id) == self@.id && Some(way.point_ids@)
                    == self@.nodes && match way.tags {
                    Some(t) => self@.tags == Some(t@),
                    None => self@.tags is None,
                },
            },
    {
        if let Some(OsmElementType::Way) = self.element_type {
            let id = match self.id {
                Some(id) => id,
                None => return Err(missing_value_error("way", "id")),
            };
            let point_ids = match &self.nodes {
                Some(nodes) => clone_nodes(nodes),
                None => return Err(missing_value_error("way", "node_ids")),
            };
            let tags = match &self.tags {
                Some(t) => Some(t.clone()),
                None => None,
            };
            return Ok(OsmWay { id, point_ids, tags });
        }
        Err(OsmJsonParserError::ElementIsNotWay)
    }

    /// The relation that the element describes, its members in order.
    pub fn get_relation_element(&self) -> (r: Result<OsmRelation, OsmJsonParserError>)
        ensures
            match relation_problem(self@) {
                Some(e) => r matches Err(err) && error_view(err) == e,
                None => r matches Ok(rel) && Some(rel.id) == self@.id && Some(rel.tags@)
                    == self@.tags && rel.members@.len() == self@.members->0.len() && forall|i: int|
                    0 <= i < rel.members@.len() ==> member_made_of(
                        #[trigger] rel.members@[i],
                        self@.members->0[i],
                    ),
            },
    {
        if let Some(OsmElementType::Relation) = self.element_type {
            let id = match self.id {
                Some(id) => id,
                None => return Err(missing_value_error("relation", "id")),
            };
            let tags = match &self.tags {
                Some(t) => t.clone(),
                None => return Err(missing_value_error("relation", "tags")),
            };
            let members = match &self.members {
                Some(m) => m,
                None => return Err(missing_value_error("relation", "members")),
            };
            let ghost ms = members_view(members@);
            let mut out: Vec<OsmRelationMember> = Vec::new();
            let mut i: usize = 0;
            assert(ms.take(0) =~= Seq::<MemberView>::empty());
            while i < members.len()
                invariant
                    i <= members.len(),
                    ms == members_view(members@),
                    self@.members == Some(ms),
                    self@.element_type == Some(OsmElementType::Relation),
                    self@.id == Some(id),
                    self@.tags == Some(tags@),
                    first_member_problem(ms.take(i as int)) is None,
                    out@.len() == i,
                    forall|j: int| 0 <= j < i ==> member_made_of(#[trigger] out@[j], ms[j]),
                decreases members.len() - i,
            {
                let m = &members[i];
                assert(ms[i as int] == m@);
                assert(ms.take(i + 1).drop_last() =~= ms.take(i as int));
                let member_type = match m.member_type {
                    Some(OsmRelMemberType::Way) => OsmRelationMemberType::Way,
                    Some(OsmRelMemberType::Node) => OsmRelationMemberType::Node,
                    None => {
                        proof {
                            lemma_first_member_problem_stops(ms, i + 1);
                        }
                        return Err(missing_value_error("member", "member_type"));
                    },
                };
                let role = match &m.role {
                    Some(OsmRelMemberRole::To) => OsmRelationMemberRole::To,
                    Some(OsmRelMemberRole::From) => OsmRelationMemberRole::From,
                    Some(OsmRelMemberRole::Via) => OsmRelationMemberRole::Via,
                    Some(OsmRelMemberRole::Other(other)) => OsmRelationMemberRole::Other(other.clone()),
                    None => {
                        proof {
                            lemma_first_member_problem_stops(ms, i + 1);
                        }
                        return Err(missing_value_error("member", "role"));
                    },
                };
                let member_ref = match m.member_ref {
                    Some(r) => r,
                    None => {
                        proof {
                            lemma_first_member_problem_stops(ms, i + 1);
                        }
                        return Err(missing_value_error("member", "member_role"));
                    },
                };
                out.push(OsmRelationMember { member_type, role, member_ref });
                proof {
                    lemma_first_member_problem_prefix(ms, i as int);
                }
                i = i + 1;
            }
            assert(ms.take(members.len() as int) =~= ms);
            return Ok(OsmRelation { id, members: out, tags });
        }
        Err(OsmJsonParserError::ElementIsNotWay)
    }
}

proof fn lemma_token_step_error_is_own(p: ParserView, tok: TokenView)
    ensures
        token_step(p, tok).1 matches Err(e) ==> !(e is ParserInErrorState),
{
}

proof fn lemma_feed_error_is_own(p: ParserView, toks: Seq<TokenView>)
    ensures
        feed_tokens(p, toks).1 matches Err(e) ==> !(e is ParserInErrorState),
    decreases toks.len(),
{
    if toks.len() > 0 {
        lemma_feed_error_is_own(p, toks.drop_last());
        let (q, r) = feed_tokens(p, toks.drop_last());
        lemma_token_step_error_is_own(q, toks.last());
    }
}

/// Once the reader has failed, it refuses every line with `ParserInErrorState`
/// and the first error, and stays as it is.
pub proof fn lemma_failed_reader_refuses_every_line(p: ParserView, line: Seq<u8>)
    requires
        p.failed is Some,
    ensures
        parse_line_step(p, line) == (p, Err::<Seq<ElementView>, ErrorView>(
            ErrorView::ParserInErrorState { error: Box::new(p.failed->0) },
        )),
{
}

/// A line that a working reader refuses leaves it failed with the error that
/// the line was refused with.
pub proof fn lemma_refused_line_fails_reader(p: ParserView, line: Seq<u8>)
    requires
        p.failed is None,
        parse_line_step(p, line).1 is Err,
    ensures
        parse_line_step(p, line).0.failed == Some(parse_line_step(p, line).1->Err_0),
        !(parse_line_step(p, line).1->Err_0 is ParserInErrorState),
{
    lemma_feed_error_is_own(p, lexed_json_tokens(line));
}

} // verus!
