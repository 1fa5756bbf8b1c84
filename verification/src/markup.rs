//! Reading a cinema's listing page into film and screening blocks.
//!
//! The page is parsed by soup into a tree of nodes. A node stays what it
//! is once parsed: nothing here changes a tree, so what a node holds is
//! spoken of as a function of the node.

use crate::extract::{FilmBlock, SessionBlock};
use crate::seance::text_of;
use std::rc::Rc;
use vstd::prelude::*;

verus! {

/// A node of a parsed page.
#[verifier::external_type_specification]
#[verifier::external_body]
pub struct ExNode(html5ever::rcdom::Node);

/// The document node of the tree that soup parses from a page.
pub uninterp spec fn parsed_document(html: Seq<char>) -> Rc<html5ever::rcdom::Node>;

/// The nodes at or below `node` that soup finds for a class, in document
/// order.
pub uninterp spec fn nodes_with_class(node: Rc<html5ever::rcdom::Node>, class: Seq<char>) -> Seq<
    Rc<html5ever::rcdom::Node>,
>;

/// The first node at or below `node` that soup finds for a tag.
pub uninterp spec fn first_with_tag(node: Rc<html5ever::rcdom::Node>, tag: Seq<char>) -> Option<
    Rc<html5ever::rcdom::Node>,
>;

/// The value that soup reads for an attribute of a node.
pub uninterp spec fn node_attribute(node: Rc<html5ever::rcdom::Node>, name: Seq<char>) -> Option<
    Seq<char>,
>;

/// The text that soup reads from a node and the nodes below it.
pub uninterp spec fn node_text(node: Rc<html5ever::rcdom::Node>) -> Seq<char>;

/// The first node at or below `node` with a class, if there is one.
pub open spec fn first_with_class(node: Rc<html5ever::rcdom::Node>, class: Seq<char>) -> Option<
    Rc<html5ever::rcdom::Node>,
> {
    let found = nodes_with_class(node, class);
    if found.len() > 0 {
        Some(found[0])
    } else {
        None
    }
}

/// The text of the first node with a class at or below `node`.
pub open spec fn class_text(node: Rc<html5ever::rcdom::Node>, class: Seq<char>) -> Option<
    Seq<char>,
> {
    match first_with_class(node, class) {
        Some(inner) => Some(node_text(inner)),
        None => None,
    }
}

/// The target of the first link at or below a session node.
pub open spec fn link_target(node: Rc<html5ever::rcdom::Node>) -> Option<Seq<char>> {
    match first_with_tag(node, "a"@) {
        Some(anchor) => node_attribute(anchor, "href"@),
        None => None,
    }
}

/// The target of the poster link of a film node.
pub open spec fn poster_target(node: Rc<html5ever::rcdom::Node>) -> Option<Seq<char>> {
    match first_with_class(node, "poster"@) {
        Some(link) => node_attribute(link, "href"@),
        None => None,
    }
}

/// `block` holds what a session node gives: the text of its date, time
/// and version nodes and the target of its link, each where it has one.
pub open spec fn reads_session(block: SessionBlock, node: Rc<html5ever::rcdom::Node>) -> bool {
    &&& text_of(block.date) == class_text(node, "sessionDate"@)
    &&& text_of(block.time) == class_text(node, "time"@)
    &&& text_of(block.version) == class_text(node, "version"@)
    &&& text_of(block.link) == link_target(node)
}

/// `block` holds what a film node gives: the target of its poster link
/// and, in document order, one screening block for each session node.
pub open spec fn reads_film(block: FilmBlock, node: Rc<html5ever::rcdom::Node>) -> bool {
    let nodes = nodes_with_class(node, "session-date"@);
    &&& text_of(block.poster) == poster_target(node)
    &&& block.sessions@.len() == nodes.len()
    &&& forall|j: int|
        0 <= j < nodes.len() ==> reads_session(#[trigger] block.sessions@[j], nodes[j])
}

/// `blocks` holds what a page gives: in document order, one film block
/// for each film container of the parsed page.
pub open spec fn reads_page(blocks: Seq<FilmBlock>, html: Seq<char>) -> bool {
    let nodes = nodes_with_class(parsed_document(html), "movie-results-container"@);
    &&& blocks.len() == nodes.len()
    &&& forall|i: int| 0 <= i < nodes.len() ==> reads_film(#[trigger] blocks[i], nodes[i])
}

/// `soup::Soup::new`, handed on as the document node of the parsed page.
#[verifier::external_body]
fn parse_markup(html: &str) -> (document: Rc<html5ever::rcdom::Node>)
    ensures
        document == parsed_document(html@),
{
    soup::QueryBuilderExt::get_handle(&soup::Soup::new(html))
}

/// `class(..).find_all()` of soup: the nodes at or below `node` that
/// carry the class, in document order.
#[verifier::external_body]
fn all_of_class(node: &Rc<html5ever::rcdom::Node>, class: &'static str) -> (found: Vec<
    Rc<html5ever::rcdom::Node>,
>)
    ensures
        found@ == nodes_with_class(*node, class@),
{
    soup::QueryBuilderExt::class(node, class).find_all().collect()
}

/// `class(..).find()` of soup: the first of the nodes that `find_all`
/// gives for the class, if it gives any.
#[verifier::external_body]
fn first_of_class(node: &Rc<html5ever::rcdom::Node>, class: &'static str) -> (found: Option<
    Rc<html5ever::rcdom::Node>,
>)
    ensures
        found == first_with_class(*node, class@),
{
    soup::QueryBuilderExt::class(node, class).find()
}

/// `tag(..).find()` of soup: the first node at or below `node` with the
/// tag.
#[verifier::external_body]
fn first_of_tag(node: &Rc<html5ever::rcdom::Node>, tag: &'static str) -> (found: Option<
    Rc<html5ever::rcdom::Node>,
>)
    ensures
        found == first_with_tag(*node, tag@),
{
    soup::QueryBuilderExt::tag(node, tag).find()
}

/// `NodeExt::get` of soup: the value of an attribute of the node.
#[verifier::external_body]
fn attribute(node: &Rc<html5ever::rcdom::Node>, name: &str) -> (value: Option<String>)
    ensures
        text_of(value) == node_attribute(*node, name@),
{
    soup::NodeExt::get(node, name)
}

/// `NodeExt::text` of soup: the text of the node and of the nodes below.
#[verifier::external_body]
fn text(node: &Rc<html5ever::rcdom::Node>) -> (content: String)
    ensures
        content@ == node_text(*node),
{
    soup::NodeExt::text(node)
}

/// The text of the first node of a class at or below `node`.
fn text_of_class(node: &Rc<html5ever::rcdom::Node>, class: &'static str) -> (content: Option<
    String,
>)
    ensures
        text_of(content) == class_text(*node, class@),
{
    match first_of_class(node, class) {
        Some(inner) => Some(text(&inner)),
        None => None,
    }
}

/// The screening block of one session node.
fn read_session_node(node: &Rc<html5ever::rcdom::Node>) -> (block: SessionBlock)
    ensures
        reads_session(block, *node),
{
    let link = match first_of_tag(node, "a") {
        Some(anchor) => attribute(&anchor, "href"),
        None => None,
    };
    SessionBlock {
        date: text_of_class(node, "sessionDate"),
        time: text_of_class(node, "time"),
        version: text_of_class(node, "version"),
        link,
    }
}

/// The film block of one film node: its poster link and one screening
/// block for each session node below it.
fn read_film_node(node: &Rc<html5ever::rcdom::Node>) -> (block: FilmBlock)
    ensures
        reads_film(block, *node),
{
    let poster = match first_of_class(node, "poster") {
        Some(link) => attribute(&link, "href"),
        None => None,
    };
    let nodes = all_of_class(node, "session-date");
    let mut sessions: Vec<SessionBlock> = Vec::new();
    let mut j: usize = 0;
    while j < nodes.len()
        invariant
            sessions@.len() == j,
            j <= nodes@.len(),
            forall|k: int| 0 <= k < j ==> reads_session(#[trigger] sessions@[k], nodes@[k]),
        decreases nodes@.len() - j,
    {
        sessions.push(read_session_node(&nodes[j]));
        j += 1;
    }
    FilmBlock { poster, sessions }
}

/// Reads a listing page: one film block for each film container of the
/// page, in page order, each with what its nodes give. A page that lacks
/// an expected node yields a block with that field missing, which
/// extraction then refuses.
pub fn read_page(html: &str) -> (blocks: Vec<FilmBlock>)
    ensures
        reads_page(blocks@, html@),
{
    let document = parse_markup(html);
    let nodes = all_of_class(&document, "movie-results-container");
    let mut blocks: Vec<FilmBlock> = Vec::new();
    let mut i: usize = 0;
    while i < nodes.len()
        invariant
            blocks@.len() == i,
            i <= nodes@.len(),
            forall|k: int| 0 <= k < i ==> reads_film(#[trigger] blocks@[k], nodes@[k]),
        decreases nodes@.len() - i,
    {
        blocks.push(read_film_node(&nodes[i]));
        i += 1;
    }
    blocks
}

} // verus!
