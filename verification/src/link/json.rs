//! Reports in JSON, read level by level: a value is its text, and looking at it
//! gives the texts of what is inside.

use vstd::prelude::*;

use crate::link::opt_text;
use crate::order::{first_such, lemma_first_such, lemma_is_first};
use crate::text::{same, texts};

verus! {

/// The parser goes no deeper than this many levels.
pub const MAX_DEPTH: u32 = 128;

/// One member of an object: its key, and its value as JSON text.
#[derive(Debug)]
pub struct Member {
    pub key: String,
    pub value: String,
}

/// The same, as contracts see it.
pub struct MemberView {
    pub key: Seq<char>,
    pub value: Seq<char>,
}

impl View for Member {
    type V = MemberView;

    open spec fn view(&self) -> MemberView {
        MemberView { key: self.key@, value: self.value@ }
    }
}

/// Members, as contracts see them.
pub open spec fn member_views(list: Seq<Member>) -> Seq<MemberView> {
    list.map_values(|m: Member| m@)
}

/// What a JSON value is.
#[derive(Debug)]
pub enum Node {
    Text(String),
    /// The items of a list, as JSON texts.
    Items(Vec<String>),
    Members(Vec<Member>),
    /// A number, a truth value or null.
    Plain,
}

/// The same, as contracts see it.
pub enum NodeView {
    Text(Seq<char>),
    Items(Seq<Seq<char>>),
    Members(Seq<MemberView>),
    Plain,
}

impl View for Node {
    type V = NodeView;

    open spec fn view(&self) -> NodeView {
        match *self {
            Node::Text(s) => NodeView::Text(s@),
            Node::Items(list) => NodeView::Items(texts(list@)),
            Node::Members(list) => NodeView::Members(member_views(list@)),
            Node::Plain => NodeView::Plain,
        }
    }
}

/// What a text is as a JSON value; nothing where it is none.
pub uninterp spec fn json_node(text: Seq<char>) -> Option<NodeView>;

/// Calls `serde_json::from_str` for a `serde_json::Value`, and renders what is
/// inside a list or an object with the value's `to_string`. The result depends on
/// the text alone. What it is for a given text is not stated.
#[verifier::external_body]
pub(crate) fn look(text: &str) -> (r: Option<Node>)
    ensures
        match r {
            Some(n) => json_node(text@) == Some(n@),
            None => json_node(text@) is None,
        },
{
    match serde_json::from_str::<serde_json::Value>(text) {
        Ok(serde_json::Value::String(s)) => Some(Node::Text(s)),
        Ok(serde_json::Value::Array(list)) => {
            Some(Node::Items(list.into_iter().map(|v| v.to_string()).collect()))
        },
        Ok(serde_json::Value::Object(map)) => Some(
            Node::Members(
                map.into_iter().map(|(key, v)| Member { key, value: v.to_string() }).collect(),
            ),
        ),
        Ok(_) => Some(Node::Plain),
        Err(_) => None,
    }
}

// ---- looking things up ----

/// Members with this key.
pub open spec fn keyed(key: Seq<char>) -> spec_fn(MemberView) -> bool {
    |m: MemberView| m.key == key
}

/// The value of the member with this key, in a list of members.
pub open spec fn value_of(members: Seq<MemberView>, key: Seq<char>) -> Option<Seq<char>> {
    match first_such(members, keyed(key)) {
        Some(i) => Some(members[i].value),
        None => None,
    }
}

/// The value of the member of an object with this key, as JSON text.
pub open spec fn member(text: Seq<char>, key: Seq<char>) -> Option<Seq<char>> {
    match json_node(text) {
        Some(NodeView::Members(list)) => value_of(list, key),
        _ => None,
    }
}

/// The items of a list, as JSON texts.
pub open spec fn items(text: Seq<char>) -> Option<Seq<Seq<char>>> {
    match json_node(text) {
        Some(NodeView::Items(list)) => Some(list),
        _ => None,
    }
}

/// The characters of a text.
pub open spec fn plain_text(text: Seq<char>) -> Option<Seq<char>> {
    match json_node(text) {
        Some(NodeView::Text(s)) => Some(s),
        _ => None,
    }
}

/// The characters of a member of an object, where it is a text.
pub open spec fn member_text(text: Seq<char>, key: Seq<char>) -> Option<Seq<char>> {
    match member(text, key) {
        Some(v) => plain_text(v),
        None => None,
    }
}

/// The items of a member of an object, where it is a list.
pub open spec fn member_items(text: Seq<char>, key: Seq<char>) -> Option<Seq<Seq<char>>> {
    match member(text, key) {
        Some(v) => items(v),
        None => None,
    }
}

/// The value of the member with this key, in a list of members.
pub fn find_value(members: &Vec<Member>, key: &str) -> (r: Option<String>)
    ensures
        opt_text(r) == value_of(member_views(members@), key@),
{
    let ghost all = member_views(members@);
    let mut i: usize = 0;
    while i < members.len()
        invariant
            i <= members@.len(),
            all == member_views(members@),
            forall|j: int| 0 <= j < i ==> !keyed(key@)(#[trigger] all[j]),
        decreases members@.len() - i,
    {
        if same(members[i].key.as_str(), key) {
            proof {
                lemma_is_first(all, keyed(key@), i as int);
            }
            return Some(members[i].value.clone());
        }
        i = i + 1;
    }
    proof {
        lemma_first_such(all, keyed(key@));
    }
    None
}

/// The value of the member of an object with this key, as JSON text.
pub fn get(text: &str, key: &str) -> (r: Option<String>)
    ensures
        opt_text(r) == member(text@, key@),
{
    match look(text) {
        Some(Node::Members(list)) => find_value(&list, key),
        _ => None,
    }
}

/// The items of a list, as JSON texts.
pub fn get_items(text: &str) -> (r: Option<Vec<String>>)
    ensures
        match items(text@) {
            Some(list) => r matches Some(v) && texts(v@) == list,
            None => r is None,
        },
{
    match look(text) {
        Some(Node::Items(list)) => Some(list),
        _ => None,
    }
}

/// The characters of a text.
pub fn get_text(text: &str) -> (r: Option<String>)
    ensures
        opt_text(r) == plain_text(text@),
{
    match look(text) {
        Some(Node::Text(s)) => Some(s),
        _ => None,
    }
}

/// The characters of a member of an object, where it is a text.
pub fn get_member_text(text: &str, key: &str) -> (r: Option<String>)
    ensures
        opt_text(r) == member_text(text@, key@),
{
    match get(text, key) {
        Some(v) => get_text(v.as_str()),
        None => None,
    }
}

/// The items of a member of an object, where it is a list.
pub fn get_member_items(text: &str, key: &str) -> (r: Option<Vec<String>>)
    ensures
        match member_items(text@, key@) {
            Some(list) => r matches Some(v) && texts(v@) == list,
            None => r is None,
        },
{
    match get(text, key) {
        Some(v) => get_items(v.as_str()),
        None => None,
    }
}

} // verus!
