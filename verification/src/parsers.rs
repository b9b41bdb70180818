//! The formats that the library knows.

use crate::annotate::{annotated, name};
use crate::context::ParseContext;
use crate::engine::{parse_failure, parse_main, realizes};
use crate::laws::{law_annotation_keeps_shape, law_ranges_in_bounds};
use crate::rule::{Rule, RuleView};
use crate::schema::{compile_rule, rule_of};
use crate::semantics::{failed, failure_node, run, Outcome};
use crate::text::str_eq;
use crate::tree::{in_bounds, Node, ParseResult, ParsedData};
use crate::yaml::{load, yaml_document};
use vstd::prelude::*;
use vstd::string::StringSliceAdditionalSpecFns;

verus! {

/// A format: its schema, and how it names and explains the nodes of a tree.
#[derive(Clone, Copy, PartialEq, Eq, Structural, Debug)]
pub enum Parsers {
    /// Text, read line by line.
    TextFileUTF8,
    /// Windows bitmap images.
    WindowsBitMap,
}

impl Parsers {
    /// The name under which a node with the identifier `parent_id` shows
    /// `child`; empty where the format has none to give.
    pub open spec fn name_of(self, parent_id: Seq<char>, child: Node) -> Seq<char> {
        match self {
            Parsers::TextFileUTF8 => crate::text_file_utf8::name_of(parent_id),
            Parsers::WindowsBitMap => Seq::empty(),
        }
    }

    /// The explanation of `node`, which has the identifier `id` and accounts
    /// for `raw_bytes`; empty where the format has none to give.
    pub open spec fn explanation_of(self, id: Seq<char>, raw_bytes: Seq<u8>, node: Node) -> Seq<
        char,
    > {
        match self {
            Parsers::TextFileUTF8 => crate::text_file_utf8::explanation_of(id, raw_bytes),
            Parsers::WindowsBitMap => id,
        }
    }

    /// The schema document of the format, as YAML text.
    pub open spec fn syntax(self) -> Seq<u8> {
        match self {
            Parsers::TextFileUTF8 => crate::text_file_utf8::SYNTAX.spec_bytes(),
            Parsers::WindowsBitMap => crate::windows_bitmap::SYNTAX.spec_bytes(),
        }
    }

    /// The rule at the root of the format's schema, where its schema
    /// document is YAML that describes a rule.
    pub open spec fn schema(self) -> Option<RuleView> {
        match yaml_document(self.syntax()) {
            Some(doc) => match compile_rule(doc) {
                Ok(rule) => Some(rule),
                Err(_) => None,
            },
            None => None,
        }
    }

    /// The schema document of the format, as YAML text.
    pub fn get_syntax(&self) -> (text: &'static [u8])
        ensures
            text@ == self.syntax(),
    {
        match self {
            Parsers::TextFileUTF8 => crate::text_file_utf8::SYNTAX.as_bytes(),
            Parsers::WindowsBitMap => crate::windows_bitmap::SYNTAX.as_bytes(),
        }
    }

    /// The name under which a node with the identifier `parent_id` shows
    /// `child`.
    pub fn ask_name(&self, parent_id: &str, child: &ParsedData) -> (name: String)
        ensures
            name@ == self.name_of(parent_id@, child@),
    {
        match self {
            Parsers::TextFileUTF8 => crate::text_file_utf8::ask_name(parent_id, child),
            Parsers::WindowsBitMap => String::new(),
        }
    }

    /// The explanation of `data`, which has the identifier `id` and accounts
    /// for `raw_bytes`.
    pub fn ask_explain(&self, id: &str, raw_bytes: &[u8], data: &ParsedData) -> (explain: String)
        ensures
            explain@ == self.explanation_of(id@, raw_bytes@, data@),
    {
        match self {
            Parsers::TextFileUTF8 => crate::text_file_utf8::ask_explain(id, raw_bytes, data),
            Parsers::WindowsBitMap => id.to_owned(),
        }
    }
}

/// The format that goes by `name`, where there is one.
pub open spec fn parser_named(name: Seq<char>) -> Option<Parsers> {
    if name == "Text(UTF-8 lines)"@ {
        Some(Parsers::TextFileUTF8)
    } else if name == "Windows BitMap"@ {
        Some(Parsers::WindowsBitMap)
    } else {
        None
    }
}

/// The format that goes by `name`, where there is one.
pub fn find_parser(name: &str) -> (parser: Option<Parsers>)
    ensures
        parser == parser_named(name@),
{
    if str_eq(name, "Text(UTF-8 lines)") {
        Some(Parsers::TextFileUTF8)
    } else if str_eq(name, "Windows BitMap") {
        Some(Parsers::WindowsBitMap)
    } else {
        None
    }
}

/// The names of the formats, in the order in which they are offered.
pub fn get_parser_list() -> (names: Vec<String>)
    ensures
        names@.len() == 2,
        names@[0]@ == "Text(UTF-8 lines)"@,
        names@[1]@ == "Windows BitMap"@,
        forall|i: int| 0 <= i < names@.len() ==> parser_named(#[trigger] names@[i]@) is Some,
{
    let mut names: Vec<String> = Vec::new();
    names.push("Text(UTF-8 lines)".to_owned());
    names.push("Windows BitMap".to_owned());
    names
}

/// The rule at the root of the format's schema; nothing where its schema
/// document is no YAML or describes no rule.
pub fn load_schema(parser: &Parsers) -> (rule: Option<Rule>)
    ensures
        match rule {
            Some(r) => parser.schema() == Some(r@),
            None => parser.schema() is None,
        },
{
    match load(parser.get_syntax()) {
        Some(doc) => match rule_of(&doc) {
            Ok(rule) => Some(rule),
            Err(_) => None,
        },
        None => None,
    }
}

/// What applying the format's schema to the whole of `data` gives: the
/// outcome of its root rule, or failure where its schema cannot be read.
pub open spec fn parse_outcome(
    parser: Parsers,
    data: Seq<u8>,
    vars: Map<Seq<char>, i64>,
) -> Outcome {
    match parser.schema() {
        Some(rule) => run(rule, data, 0, vars),
        None => failed(data, 0, vars),
    }
}

/// Applies the format's schema to the whole of `data`. A format whose schema
/// cannot be read gives the failure node for the whole buffer.
pub fn parse(parser: &Parsers, data: &Vec<u8>, context: &mut ParseContext) -> (result: ParseResult)
    ensures
        realizes(
            result,
            *final(context),
            parse_outcome(*parser, data@, old(context)@),
        ),
{
    match load_schema(parser) {
        Some(rule) => parse_main(&rule, data, 0, context),
        None => parse_failure(data, 0),
    }
}

/// The annotated tree of `data` under the rule `schema`, named and explained
/// by `parser`.
pub fn parse_with(parser: &Parsers, schema: &Rule, data: &Vec<u8>) -> (tree: ParsedData)
    ensures
        tree@ == annotated(*parser, data@, run(schema@, data@, 0, Map::empty()).node),
        in_bounds(tree@, data@.len() as int),
{
    let mut context = ParseContext::new();
    let mut parsed = parse_main(schema, data, 0, &mut context).body;
    proof {
        law_ranges_in_bounds(schema@, data@, 0, Map::empty());
        law_annotation_keeps_shape(*parser, data@, parsed@, data@.len() as int);
    }
    name(parser, data, &mut parsed);
    parsed
}

/// The tree that `inner_parse` gives for the format name `name` and the
/// bytes `data`.
pub open spec fn tree_of(name: Seq<char>, data: Seq<u8>) -> Node {
    match parser_named(name) {
        Some(parser) => annotated(parser, data, parse_outcome(parser, data, Map::empty()).node),
        None => failure_node(data.len() as int, 0),
    }
}

/// The pass leaves a failure node as it is.
pub proof fn lemma_failure_stays(parser: Parsers, data: Seq<u8>, cursor: int)
    ensures
        annotated(parser, data, failure_node(data.len() as int, cursor)) == failure_node(
            data.len() as int,
            cursor,
        ),
{
    let node = failure_node(data.len() as int, cursor);
    assert(annotated(parser, data, node).children =~= node.children);
}

/// Reads `data` as a file of the format that goes by `parser_str`. This
/// always gives a tree: for a name that no format goes by, and for a format
/// whose schema cannot be read, the failure node for the whole buffer.
pub fn inner_parse(parser_str: &str, data: Vec<u8>) -> (tree: ParsedData)
    ensures
        tree@ == tree_of(parser_str@, data@),
        parser_named(parser_str@) is None || parser_named(parser_str@)->0.schema() is None
            ==> tree@ == failure_node(data@.len() as int, 0),
        in_bounds(tree@, data@.len() as int),
{
    let parser = match find_parser(parser_str) {
        Some(parser) => parser,
        None => {
            return parse_failure(&data, 0).body;
        },
    };
    let mut context = ParseContext::new();
    let mut parsed = parse(&parser, &data, &mut context).body;
    proof {
        match parser.schema() {
            Some(rule) => {
                law_ranges_in_bounds(rule, data@, 0, Map::empty());
            },
            None => {
                lemma_failure_stays(parser, data@, 0);
            },
        }
        law_annotation_keeps_shape(parser, data@, parsed@, data@.len() as int);
    }
    name(&parser, &data, &mut parsed);
    parsed
}

} // verus!
