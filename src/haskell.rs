//! Identifier occurrences of Haskell source, found by tree-sitter's Haskell
//! grammar and its query for `variable` nodes.
use vstd::prelude::*;
use crate::scan::{spans_valid, Occurrence};
use tree_sitter::StreamingIterator;

verus! {

#[verifier::external_type_specification]
#[verifier::external_body]
pub struct ExParser(tree_sitter::Parser);

#[verifier::external_type_specification]
#[verifier::external_body]
pub struct ExTree(tree_sitter::Tree);

#[verifier::external_type_specification]
#[verifier::external_body]
pub struct ExQuery(tree_sitter::Query);

/// Relies on tree_sitter::Parser::new and Parser::set_language, given
/// tree_sitter_haskell's grammar; `None` where the grammar's version does
/// not fit the parser.
#[verifier::external_body]
fn haskell_parser() -> (r: Option<tree_sitter::Parser>) {
    let mut parser = tree_sitter::Parser::new();
    match parser.set_language(&tree_sitter_haskell::LANGUAGE.into()) {
        Ok(()) => Some(parser),
        Err(_) => None,
    }
}

/// Relies on tree_sitter::Query::new, which compiles a query that captures
/// every `variable` node of the Haskell grammar; `None` where it is refused.
#[verifier::external_body]
fn variable_query() -> (r: Option<tree_sitter::Query>) {
    tree_sitter::Query::new(&tree_sitter_haskell::LANGUAGE.into(), "(variable) @variable-name").ok()
}

/// The variable nodes that tree-sitter's Haskell grammar and the query
/// `(variable) @variable-name` find in some bytes: each as its start byte,
/// end byte, start row (from 0) and start column, in the order the query
/// cursor gives them; `None` where the bytes give no tree.
pub uninterp spec fn haskell_variables(buf: Seq<u8>) -> Option<Seq<(usize, usize, usize, usize)>>;

/// Relies on tree_sitter::Parser::parse (a fresh parse, no old tree) and
/// tree_sitter::QueryCursor::matches with a fresh cursor: the captured nodes
/// depend on the bytes alone, the parser holding the Haskell grammar and the
/// query being the variable query, as `HaskellSource::new` makes them.
#[verifier::external_body]
fn haskell_variable_nodes(source: &mut HaskellSource, buf: &[u8]) -> (r: Option<
    Vec<(usize, usize, usize, usize)>,
>)
    ensures
        r matches Some(v) ==> haskell_variables(buf@) == Some(v@),
        r is None ==> haskell_variables(buf@) is None,
{
    let tree = source.parser.parse(buf, None)?;
    let mut cursor = tree_sitter::QueryCursor::new();
    let mut found = Vec::new();
    let mut matches = cursor.matches(&source.query, tree.root_node(), buf);
    while let Some(m) = matches.next() {
        for c in m.captures {
            let p = c.node.start_position();
            found.push((c.node.start_byte(), c.node.end_byte(), p.row, p.column));
        }
    }
    Some(found)
}

/// A node's position taken as an occurrence: rows counted from 1.
pub open spec fn occurrence_of(n: (usize, usize, usize, usize)) -> Occurrence {
    Occurrence { start_byte: n.0, end_byte: n.1, row: (n.2 + 1) as usize, column: n.3 }
}

/// A node's span lies in a buffer of `len` bytes, and its row can be
/// counted from 1.
pub open spec fn node_fits(n: (usize, usize, usize, usize), len: nat) -> bool {
    n.0 <= n.1 && n.1 <= len && n.2 < usize::MAX
}

/// The occurrences of a Haskell buffer: those of its variable nodes where
/// every node fits the buffer, else `None`, as where the buffer gives no tree.
pub open spec fn source_occurrences(buf: Seq<u8>) -> Option<Seq<Occurrence>> {
    match haskell_variables(buf) {
        Some(nodes) => if forall|i: int| 0 <= i < nodes.len() ==> node_fits(#[trigger] nodes[i], buf.len()) {
            Some(nodes.map_values(|n: (usize, usize, usize, usize)| occurrence_of(n)))
        } else {
            None
        },
        None => None,
    }
}

/// The occurrences that captured nodes give, or `None` where a node does not
/// fit the buffer (the tree is then no tree of these bytes).
pub fn occurrences_from_nodes(nodes: &Vec<(usize, usize, usize, usize)>, len: usize) -> (r: Option<
    Vec<Occurrence>,
>)
    ensures
        r is Some <==> forall|i: int| 0 <= i < nodes@.len() ==> node_fits(#[trigger] nodes@[i], len as nat),
        r matches Some(occs) ==> occs@ == nodes@.map_values(|n: (usize, usize, usize, usize)| occurrence_of(n)),
        r matches Some(occs) ==> spans_valid(occs@, len as nat),
{
    let mut occs: Vec<Occurrence> = Vec::new();
    let mut i: usize = 0;
    while i < nodes.len()
        invariant
            i <= nodes@.len(),
            forall|k: int| 0 <= k < i ==> node_fits(#[trigger] nodes@[k], len as nat),
            occs@ == nodes@.subrange(0, i as int).map_values(|n: (usize, usize, usize, usize)| occurrence_of(n)),
        decreases nodes@.len() - i,
    {
        let n = nodes[i];
        if !(n.0 <= n.1 && n.1 <= len && n.2 < usize::MAX) {
            return None;
        }
        occs.push(Occurrence { start_byte: n.0, end_byte: n.1, row: n.2 + 1, column: n.3 });
        assert(nodes@.subrange(0, i as int + 1) =~= nodes@.subrange(0, i as int).push(n));
        assert(occs@ =~= nodes@.subrange(0, i as int + 1).map_values(|n: (usize, usize, usize, usize)| occurrence_of(n)));
        i = i + 1;
    }
    assert(nodes@.subrange(0, nodes@.len() as int) =~= nodes@);
    Some(occs)
}

/// Why the Haskell front end could not be set up.
#[derive(Clone, Copy, Debug, PartialEq, Eq)]
pub enum SetupError {
    /// The parser refused the Haskell grammar.
    Grammar,
    /// The query for variable names was refused.
    Query,
}

/// A parser for Haskell and its query for variable names.
pub struct HaskellSource {
    parser: tree_sitter::Parser,
    query: tree_sitter::Query,
}

impl HaskellSource {
    pub fn new() -> (r: Result<HaskellSource, SetupError>) {
        let parser = match haskell_parser() {
            Some(p) => p,
            None => return Err(SetupError::Grammar),
        };
        let query = match variable_query() {
            Some(q) => q,
            None => return Err(SetupError::Query),
        };
        Ok(HaskellSource { parser, query })
    }

    /// The variable occurrences of `buf` in the order the query gives them,
    /// or `None` where `buf` does not parse.
    pub fn occurrences(&mut self, buf: &[u8]) -> (r: Option<Vec<Occurrence>>)
        ensures
            r matches Some(occs) ==> spans_valid(occs@, buf@.len()),
            r matches Some(occs) ==> source_occurrences(buf@) == Some(occs@),
            r is None ==> source_occurrences(buf@) is None,
    {
        match haskell_variable_nodes(self, buf) {
            Some(nodes) => occurrences_from_nodes(&nodes, buf.len()),
            None => None,
        }
    }
}

} // verus!
