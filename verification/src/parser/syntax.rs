//! The syntax of a module as plain values, read off the syntax tree.
use oxc_allocator::Allocator;
use oxc_ast::ast::PropertyKind;
use oxc_ast::AstKind;
use oxc_ast::AstKind::{
    ParenthesizedExpression, TSAsExpression, TSInstantiationExpression, TSNonNullExpression,
    TSSatisfiesExpression, TSTypeAssertion,
};
use oxc_parser::config::TokensParserConfig;
use oxc_parser::Parser;
use oxc_semantic::SemanticBuilder;
use oxc_span::{GetSpan, SourceType};
use oxc_syntax::module_record::{ExportExportName, ExportImportName, ImportImportName};
use vstd::multiset::Multiset;
use vstd::prelude::*;

use crate::path::{components, extension_of};

verus! {

/// The extensions of files that can be parsed.
pub open spec fn is_source_extension(extension: Option<Seq<char>>) -> bool {
    extension == Some("js"@) || extension == Some("jsx"@) || extension == Some("mjs"@)
        || extension == Some("cjs"@) || extension == Some("ts"@) || extension == Some("tsx"@)
        || extension == Some("mts"@) || extension == Some("cts"@)
}

/// A path whose extension the parser knows.
pub open spec fn is_supported(path: Seq<char>) -> bool {
    is_source_extension(extension_of(components(path)))
}

/// The first error that `oxc_parser::Parser` reports for a text.
pub uninterp spec fn parser_error(path: Seq<char>, source: Seq<char>) -> Option<Seq<char>>;

/// `oxc_parser::Parser::parse`, of whose result only the first error is kept, as text. The name
/// of the file decides which language the text is read as.
#[verifier::external_body]
pub(crate) fn first_parser_error(path: &str, source: &str) -> (r: Option<String>)
    requires
        is_supported(path@),
    ensures
        r is Some == parser_error(path@, source@) is Some,
        r is Some ==> parser_error(path@, source@) == Some(r->0@),
{
    let allocator = Allocator::default();
    let parsed = Parser::new(&allocator, source, SourceType::from_path(path).unwrap()).parse();
    parsed.errors.first().map(|error| error.to_string())
}

/// The first error that `oxc_semantic::SemanticBuilder` reports for a text.
pub uninterp spec fn semantic_error(path: Seq<char>, source: Seq<char>) -> Option<Seq<char>>;

/// `oxc_semantic::SemanticBuilder::build`, of whose result only the first error is kept, as text.
#[verifier::external_body]
pub(crate) fn first_semantic_error(path: &str, source: &str) -> (r: Option<String>)
    requires
        is_supported(path@),
    ensures
        r is Some == semantic_error(path@, source@) is Some,
        r is Some ==> semantic_error(path@, source@) == Some(r->0@),
{
    let allocator = Allocator::default();
    let parsed = Parser::new(&allocator, source, SourceType::from_path(path).unwrap()).parse();
    let analysed = SemanticBuilder::new().build(&parsed.program);
    analysed.errors.first().map(|error| error.to_string())
}

/// The nodes of the syntax tree in the order in which a walk enters them: the kind of each, the
/// number of its parent, and the bytes where it starts and ends.
pub uninterp spec fn tree_nodes(path: Seq<char>, source: Seq<char>) -> Seq<
    (Seq<char>, usize, usize, usize),
>;

pub open spec fn node_views(list: Seq<(String, usize, usize, usize)>) -> Seq<
    (Seq<char>, usize, usize, usize),
> {
    list.map_values(|n: (String, usize, usize, usize)| (n.0@, n.1, n.2, n.3))
}

/// `oxc_semantic::AstNodes`, node by node: its kind's name, its parent and its span.
#[verifier::external_body]
pub(crate) fn read_nodes(path: &str, source: &str) -> (r: Vec<(String, usize, usize, usize)>)
    requires
        is_supported(path@),
    ensures
        node_views(r@) == tree_nodes(path@, source@),
{
    let allocator = Allocator::default();
    let parsed = Parser::new(&allocator, source, SourceType::from_path(path).unwrap()).parse();
    let semantic = SemanticBuilder::new().build(&parsed.program).semantic;
    let nodes = semantic.nodes();
    nodes.iter().map(|node| {
        let span = node.kind().span();
        let parent = nodes.parent_id(node.id()).index();
        (format!("{:?}", node.kind().ty()), parent, span.start as usize, span.end as usize)
    }).collect()
}

/// The texts that declarators, properties, strings and `require` calls hold, in the order of the
/// nodes.
pub uninterp spec fn tree_texts(path: Seq<char>, source: Seq<char>) -> Seq<Option<Seq<char>>>;

pub open spec fn label_views(list: Seq<Option<String>>) -> Seq<Option<Seq<char>>> {
    list.map_values(
        |l: Option<String>|
            match l {
                Some(s) => Some(s@),
                None => None,
            },
    )
}

/// Of each node of the tree the text that `oxc_ast` gives for its kind: the name that a
/// declarator binds, the static name of a property, the value of a string, the argument of a
/// `require` call.
#[verifier::external_body]
pub(crate) fn read_texts(path: &str, source: &str) -> (r: Vec<Option<String>>)
    requires
        is_supported(path@),
    ensures
        label_views(r@) == tree_texts(path@, source@),
{
    let allocator = Allocator::default();
    let parsed = Parser::new(&allocator, source, SourceType::from_path(path).unwrap()).parse();
    let semantic = SemanticBuilder::new().build(&parsed.program).semantic;
    semantic.nodes().iter().map(|node| match node.kind() {
        AstKind::VariableDeclarator(d) => d.id.get_binding_identifier().map(|b| b.name.to_string()),
        AstKind::ObjectProperty(p) => p.key.static_name().map(|name| name.to_string()),
        AstKind::StringLiteral(s) => Some(s.value.to_string()),
        AstKind::CallExpression(c) => c.common_js_require().map(|r| r.value.to_string()),
        _ => None,
    }).collect()
}

/// The names of identifiers and of the members that are accessed, in the order of the nodes.
pub uninterp spec fn tree_names(path: Seq<char>, source: Seq<char>) -> Seq<Option<Seq<char>>>;

/// Of each node of the tree the name that `oxc_ast` gives for its kind: the static name of the
/// property of a member expression, the property of a member expression in a tag, the name of an
/// identifier.
#[verifier::external_body]
pub(crate) fn read_names(path: &str, source: &str) -> (r: Vec<Option<String>>)
    requires
        is_supported(path@),
    ensures
        label_views(r@) == tree_names(path@, source@),
{
    let allocator = Allocator::default();
    let parsed = Parser::new(&allocator, source, SourceType::from_path(path).unwrap()).parse();
    let semantic = SemanticBuilder::new().build(&parsed.program).semantic;
    semantic.nodes().iter().map(|node| match node.kind() {
        AstKind::JSXMemberExpression(m) => Some(m.property.name.to_string()),
        kind => match kind.as_member_expression_kind() {
            Some(member) => member.static_property_name().map(|name| name.to_string()),
            None => kind.identifier_name().map(|name| name.to_string()),
        },
    }).collect()
}

/// The node inside the value that each declarator, property, loop and statement evaluates, in the
/// order of the nodes.
pub uninterp spec fn tree_values(path: Seq<char>, source: Seq<char>) -> Seq<Option<usize>>;

/// `Expression::get_inner_expression` on the value of each node that has one, as the number of the
/// node it gives: the initialiser of a declarator, the value of a property, what a loop runs over,
/// what a statement evaluates.
#[verifier::external_body]
pub(crate) fn read_values(path: &str, source: &str) -> (r: Vec<Option<usize>>)
    requires
        is_supported(path@),
    ensures
        r@ == tree_values(path@, source@),
{
    let allocator = Allocator::default();
    let parsed = Parser::new(&allocator, source, SourceType::from_path(path).unwrap()).parse();
    let semantic = SemanticBuilder::new().build(&parsed.program).semantic;
    semantic.nodes().iter().map(|node| match node.kind() {
        AstKind::VariableDeclarator(d) => d.init.as_ref(),
        AstKind::ObjectProperty(p) => Some(&p.value),
        AstKind::ForOfStatement(f) => Some(&f.right),
        AstKind::ExpressionStatement(s) => Some(&s.expression),
        _ => None,
    }.map(|e| AstKind::from_expression(e.get_inner_expression()).node_id().index())).collect()
}

/// The node inside the expression that each call calls and each member expression accesses, in the
/// order of the nodes.
pub uninterp spec fn tree_subjects(path: Seq<char>, source: Seq<char>) -> Seq<Option<usize>>;

/// `Expression::get_inner_expression` on the callee of each call and the object of each member
/// expression, as the number of the node it gives.
#[verifier::external_body]
pub(crate) fn read_subjects(path: &str, source: &str) -> (r: Vec<Option<usize>>)
    requires
        is_supported(path@),
    ensures
        r@ == tree_subjects(path@, source@),
{
    let allocator = Allocator::default();
    let parsed = Parser::new(&allocator, source, SourceType::from_path(path).unwrap()).parse();
    let semantic = SemanticBuilder::new().build(&parsed.program).semantic;
    semantic.nodes().iter().map(|node| match node.kind() {
        AstKind::CallExpression(c) => Some(&c.callee),
        AstKind::NewExpression(n) => Some(&n.callee),
        AstKind::StaticMemberExpression(m) => Some(&m.object),
        AstKind::ComputedMemberExpression(m) => Some(&m.object),
        _ => None,
    }.map(|e| AstKind::from_expression(e.get_inner_expression()).node_id().index())).collect()
}

/// The node that each wrapping expression stands for, in the order of the nodes.
pub uninterp spec fn tree_wrapped(path: Seq<char>, source: Seq<char>) -> Seq<Option<usize>>;

/// `Expression::get_inner_expression` on what each expression wraps that only adds parentheses or
/// types, as the number of the node it gives.
#[verifier::external_body]
pub(crate) fn read_wrapped(path: &str, source: &str) -> (r: Vec<Option<usize>>)
    requires
        is_supported(path@),
    ensures
        r@ == tree_wrapped(path@, source@),
{
    let allocator = Allocator::default();
    let parsed = Parser::new(&allocator, source, SourceType::from_path(path).unwrap()).parse();
    let semantic = SemanticBuilder::new().build(&parsed.program).semantic;
    semantic.nodes().iter().map(|node| match node.kind() {
        ParenthesizedExpression(e) => Some(&e.expression),
        TSAsExpression(e) => Some(&e.expression),
        TSSatisfiesExpression(e) => Some(&e.expression),
        TSInstantiationExpression(e) => Some(&e.expression),
        TSNonNullExpression(e) => Some(&e.expression),
        TSTypeAssertion(e) => Some(&e.expression),
        _ => None,
    }.map(|e| AstKind::from_expression(e.get_inner_expression()).node_id().index())).collect()
}

/// The yes-or-no properties of the nodes, in the order of the nodes.
pub uninterp spec fn tree_marks(path: Seq<char>, source: Seq<char>) -> Seq<(bool, bool, bool)>;

/// Of each node of the tree what `oxc_ast` says of its kind: of a declarator whether it is
/// constant; of a property whether its key is computed, whether it is a method and whether it is
/// no accessor; of a member expression whether it is assigned to.
#[verifier::external_body]
pub(crate) fn read_marks(path: &str, source: &str) -> (r: Vec<(bool, bool, bool)>)
    requires
        is_supported(path@),
    ensures
        r@ == tree_marks(path@, source@),
{
    let allocator = Allocator::default();
    let parsed = Parser::new(&allocator, source, SourceType::from_path(path).unwrap()).parse();
    let semantic = SemanticBuilder::new().build(&parsed.program).semantic;
    let nodes = semantic.nodes();
    nodes.iter().map(|node| match node.kind() {
        AstKind::VariableDeclarator(d) => (d.kind.is_const(), false, false),
        AstKind::ObjectProperty(p) => (p.computed, p.method, p.kind == PropertyKind::Init),
        kind => (kind.as_member_expression_kind().is_some_and(
            |member| member.is_assigned_to_in_parent(&nodes.parent_kind(node.id())),
        ), false, false),
    }).collect()
}

/// The symbols of a module in the order of their numbers: the name, the scope, where the
/// declaration starts and ends, and whether it is a value and whether it imports a type.
pub uninterp spec fn tree_symbols(path: Seq<char>, source: Seq<char>) -> Seq<
    (Seq<char>, (usize, usize, usize), (bool, bool)),
>;

pub open spec fn symbol_views(list: Seq<(String, (usize, usize, usize), (bool, bool))>) -> Seq<
    (Seq<char>, (usize, usize, usize), (bool, bool)),
> {
    list.map_values(|s: (String, (usize, usize, usize), (bool, bool))| (s.0@, s.1, s.2))
}

/// `oxc_semantic::Scoping`, symbol by symbol.
#[verifier::external_body]
pub(crate) fn read_symbols(path: &str, source: &str) -> (r: Vec<
    (String, (usize, usize, usize), (bool, bool)),
>)
    requires
        is_supported(path@),
    ensures
        symbol_views(r@) == tree_symbols(path@, source@),
{
    let allocator = Allocator::default();
    let parsed = Parser::new(&allocator, source, SourceType::from_path(path).unwrap()).parse();
    let semantic = SemanticBuilder::new().build(&parsed.program).semantic;
    let scoping = semantic.scoping();
    scoping.symbol_ids().map(|id| {
        let span = semantic.symbol_declaration(id).kind().span();
        let flags = scoping.symbol_flags(id);
        let scope = scoping.symbol_scope_id(id).index();
        let place = (scope, span.start as usize, span.end as usize);
        (scoping.symbol_name(id).to_string(), place, (flags.is_value(), flags.is_type_import()))
    }).collect()
}

/// The number of the scope of the whole module.
pub uninterp spec fn tree_root(path: Seq<char>, source: Seq<char>) -> usize;

/// `oxc_semantic::Scoping::root_scope_id`.
#[verifier::external_body]
pub(crate) fn read_root(path: &str, source: &str) -> (r: usize)
    requires
        is_supported(path@),
    ensures
        r == tree_root(path@, source@),
{
    let allocator = Allocator::default();
    let parsed = Parser::new(&allocator, source, SourceType::from_path(path).unwrap()).parse();
    let semantic = SemanticBuilder::new().build(&parsed.program).semantic;
    semantic.scoping().root_scope_id().index()
}

/// The references of a module, symbol by symbol: the number of the symbol, that of the node that
/// refers to it, where that node starts and ends, and whether only as a type.
pub uninterp spec fn tree_references(path: Seq<char>, source: Seq<char>) -> Seq<
    (usize, usize, (usize, usize), bool),
>;

/// `oxc_semantic::Semantic::symbol_references`, for each symbol in turn.
#[verifier::external_body]
pub(crate) fn read_references(path: &str, source: &str) -> (r: Vec<
    (usize, usize, (usize, usize), bool),
>)
    requires
        is_supported(path@),
    ensures
        r@ == tree_references(path@, source@),
{
    let allocator = Allocator::default();
    let parsed = Parser::new(&allocator, source, SourceType::from_path(path).unwrap()).parse();
    let semantic = SemanticBuilder::new().build(&parsed.program).semantic;
    let semantic = &semantic;
    semantic.scoping().symbol_ids().flat_map(|id| semantic.symbol_references(id).map(move |r| {
        let span = semantic.reference_span(r);
        let place = (span.start as usize, span.end as usize);
        (id.index(), r.node_id().index(), place, r.flags().is_type_only())
    })).collect()
}

/// Where the tokens of a module start and end.
pub uninterp spec fn tree_tokens(path: Seq<char>, source: Seq<char>) -> Seq<(usize, usize)>;

/// The tokens that `oxc_parser::Parser` collects.
#[verifier::external_body]
pub(crate) fn read_tokens(path: &str, source: &str) -> (r: Vec<(usize, usize)>)
    requires
        is_supported(path@),
    ensures
        r@ == tree_tokens(path@, source@),
{
    let allocator = Allocator::default();
    let kind = SourceType::from_path(path).unwrap();
    let parsed = Parser::new(&allocator, source, kind).with_config(TokensParserConfig).parse();
    parsed.tokens.iter().map(|t| (t.span().start as usize, t.span().end as usize)).collect()
}

/// Where the top-level statements of a module start and end.
pub uninterp spec fn tree_statements(path: Seq<char>, source: Seq<char>) -> Seq<(usize, usize)>;

/// The body of the program that `oxc_parser::Parser` builds.
#[verifier::external_body]
pub(crate) fn read_statements(path: &str, source: &str) -> (r: Vec<(usize, usize)>)
    requires
        is_supported(path@),
    ensures
        r@ == tree_statements(path@, source@),
{
    let allocator = Allocator::default();
    let parsed = Parser::new(&allocator, source, SourceType::from_path(path).unwrap()).parse();
    let body = &parsed.program.body;
    body.iter().map(|s| (s.span().start as usize, s.span().end as usize)).collect()
}

/// An optional text as a mathematical value.
pub open spec fn text_view(t: Option<String>) -> Option<Seq<char>> {
    match t {
        Some(s) => Some(s@),
        None => None,
    }
}

/// What an import or export names: a name, the default, or nothing of the kind.
pub open spec fn taken_view(t: Option<Option<String>>) -> Option<Option<Seq<char>>> {
    match t {
        Some(name) => Some(text_view(name)),
        None => None,
    }
}

/// The imports of a module in order: the module, the local name, what is imported (a name, the
/// default, or the namespace), whether only a type, and where the statement starts and ends.
pub uninterp spec fn tree_imports(path: Seq<char>, source: Seq<char>) -> Seq<
    (Seq<char>, Seq<char>, Option<Option<Seq<char>>>, bool, (usize, usize)),
>;

pub type ImportFact = (String, String, Option<Option<String>>, bool, (usize, usize));

pub open spec fn import_views(list: Seq<ImportFact>) -> Seq<
    (Seq<char>, Seq<char>, Option<Option<Seq<char>>>, bool, (usize, usize)),
> {
    list.map_values(|i: ImportFact| (i.0@, i.1@, taken_view(i.2), i.3, i.4))
}

/// `ModuleRecord::import_entries`.
#[verifier::external_body]
pub(crate) fn read_imports(path: &str, source: &str) -> (r: Vec<ImportFact>)
    requires
        is_supported(path@),
    ensures
        import_views(r@) == tree_imports(path@, source@),
{
    let allocator = Allocator::default();
    let parsed = Parser::new(&allocator, source, SourceType::from_path(path).unwrap()).parse();
    parsed.module_record.import_entries.iter().map(|entry| {
        let taken = match &entry.import_name {
            ImportImportName::Name(name) => Some(Some(name.name.to_string())),
            ImportImportName::Default(_) => Some(None),
            ImportImportName::NamespaceObject => None,
        };
        let span = (entry.statement_span.start as usize, entry.statement_span.end as usize);
        let module = entry.module_request.name.to_string();
        (module, entry.local_name.name.to_string(), taken, entry.is_type, span)
    }).collect()
}

/// The exports that a module declares itself, in order: the exported name or the default, the
/// local name, and whether only a type.
pub uninterp spec fn tree_local_exports(path: Seq<char>, source: Seq<char>) -> Seq<
    (Option<Option<Seq<char>>>, Option<Seq<char>>, bool),
>;

pub type LocalExportFact = (Option<Option<String>>, Option<String>, bool);

pub open spec fn local_export_views(list: Seq<LocalExportFact>) -> Seq<
    (Option<Option<Seq<char>>>, Option<Seq<char>>, bool),
> {
    list.map_values(|e: LocalExportFact| (taken_view(e.0), text_view(e.1), e.2))
}

/// `ModuleRecord::local_export_entries`.
#[verifier::external_body]
pub(crate) fn read_local_exports(path: &str, source: &str) -> (r: Vec<LocalExportFact>)
    requires
        is_supported(path@),
    ensures
        local_export_views(r@) == tree_local_exports(path@, source@),
{
    let allocator = Allocator::default();
    let parsed = Parser::new(&allocator, source, SourceType::from_path(path).unwrap()).parse();
    parsed.module_record.local_export_entries.iter().map(|entry| {
        let exported = match &entry.export_name {
            ExportExportName::Name(name) => Some(Some(name.name.to_string())),
            ExportExportName::Default(_) => Some(None),
            ExportExportName::Null => None,
        };
        (exported, entry.local_name.name().map(|name| name.to_string()), entry.is_type)
    }).collect()
}

/// The exports that a module takes from others, in order: the other module, the exported name or
/// the default, whether it is the other module as a whole, the name it has there, and whether
/// only a type.
pub uninterp spec fn tree_re_exports(path: Seq<char>, source: Seq<char>) -> Seq<
    (Option<Seq<char>>, Option<Option<Seq<char>>>, (bool, Option<Seq<char>>), bool),
>;

pub type ReExportFact = (Option<String>, Option<Option<String>>, (bool, Option<String>), bool);

pub open spec fn re_export_views(list: Seq<ReExportFact>) -> Seq<
    (Option<Seq<char>>, Option<Option<Seq<char>>>, (bool, Option<Seq<char>>), bool),
> {
    list.map_values(
        |e: ReExportFact| (text_view(e.0), taken_view(e.1), (e.2.0, text_view(e.2.1)), e.3),
    )
}

/// `ModuleRecord::indirect_export_entries`.
#[verifier::external_body]
pub(crate) fn read_re_exports(path: &str, source: &str) -> (r: Vec<ReExportFact>)
    requires
        is_supported(path@),
    ensures
        re_export_views(r@) == tree_re_exports(path@, source@),
{
    let allocator = Allocator::default();
    let parsed = Parser::new(&allocator, source, SourceType::from_path(path).unwrap()).parse();
    parsed.module_record.indirect_export_entries.iter().map(|entry| {
        let exported = match &entry.export_name {
            ExportExportName::Name(name) => Some(Some(name.name.to_string())),
            ExportExportName::Default(_) => Some(None),
            ExportExportName::Null => None,
        };
        let imported = match &entry.import_name {
            ExportImportName::Name(name) => (false, Some(name.name.to_string())),
            other => (other.is_all(), None),
        };
        (entry.module_request.as_ref().map(|m| m.name.to_string()), exported, imported, entry.is_type)
    }).collect()
}

/// The modules that a module passes on whole, in order, and whether only their types.
pub uninterp spec fn tree_stars(path: Seq<char>, source: Seq<char>) -> Seq<
    (Option<Seq<char>>, bool),
>;

pub type StarFact = (Option<String>, bool);

pub open spec fn star_views(list: Seq<StarFact>) -> Seq<(Option<Seq<char>>, bool)> {
    list.map_values(|e: StarFact| (text_view(e.0), e.1))
}

/// `ModuleRecord::star_export_entries`.
#[verifier::external_body]
pub(crate) fn read_stars(path: &str, source: &str) -> (r: Vec<StarFact>)
    requires
        is_supported(path@),
    ensures
        star_views(r@) == tree_stars(path@, source@),
{
    let allocator = Allocator::default();
    let parsed = Parser::new(&allocator, source, SourceType::from_path(path).unwrap()).parse();
    parsed.module_record.star_export_entries.iter().map(|entry| {
        (entry.module_request.as_ref().map(|m| m.name.to_string()), entry.is_type)
    }).collect()
}

/// The statements that ask for a module, in no order: the module, whether the statement imports
/// and whether only types, and where it starts and ends.
pub uninterp spec fn tree_requests(path: Seq<char>, source: Seq<char>) -> Multiset<
    (Seq<char>, (bool, bool), (usize, usize)),
>;

pub type RequestFact = (String, (bool, bool), (usize, usize));

pub open spec fn request_views(list: Seq<RequestFact>) -> Seq<
    (Seq<char>, (bool, bool), (usize, usize)),
> {
    list.map_values(|r: RequestFact| (r.0@, r.1, r.2))
}

/// `ModuleRecord::requested_modules`, a hash map whose order is left open.
#[verifier::external_body]
pub(crate) fn read_requests(path: &str, source: &str) -> (r: Vec<RequestFact>)
    requires
        is_supported(path@),
    ensures
        request_views(r@).to_multiset() == tree_requests(path@, source@),
{
    let allocator = Allocator::default();
    let parsed = Parser::new(&allocator, source, SourceType::from_path(path).unwrap()).parse();
    parsed.module_record.requested_modules.iter().flat_map(|(name, list)| {
        list.iter().map(|r| {
            let span = (r.statement_span.start as usize, r.statement_span.end as usize);
            (name.to_string(), (r.is_import, r.is_type), span)
        })
    }).collect()
}

/// The dynamic imports of a module in order: where the request and where the whole expression
/// start and end.
pub uninterp spec fn tree_dynamic_imports(path: Seq<char>, source: Seq<char>) -> Seq<
    ((usize, usize), (usize, usize)),
>;

/// `ModuleRecord::dynamic_imports`.
#[verifier::external_body]
pub(crate) fn read_dynamic_imports(path: &str, source: &str) -> (r: Vec<
    ((usize, usize), (usize, usize)),
>)
    requires
        is_supported(path@),
    ensures
        r@ == tree_dynamic_imports(path@, source@),
{
    let allocator = Allocator::default();
    let parsed = Parser::new(&allocator, source, SourceType::from_path(path).unwrap()).parse();
    parsed.module_record.dynamic_imports.iter().map(|import| {
        let request = import.module_request;
        let span = import.span;
        let inner = (request.start as usize, request.end as usize);
        (inner, (span.start as usize, span.end as usize))
    }).collect()
}

/// One node of the syntax tree.
pub struct SyntaxNode {
    pub kind: String,
    pub parent: usize,
    pub start: usize,
    pub end: usize,
    pub label: Option<String>,
    pub operand: Option<usize>,
    pub wrapped: Option<usize>,
    pub marks: (bool, bool, bool),
}

/// A declared symbol.
pub struct SymbolFact {
    pub name: String,
    pub scope: usize,
    pub start: usize,
    pub end: usize,
    pub is_value: bool,
    pub is_type_import: bool,
}

/// A reference to a symbol.
pub struct ReferenceFact {
    pub symbol: usize,
    pub node: usize,
    pub start: usize,
    pub end: usize,
    pub type_only: bool,
}

/// The syntax of a module.
pub struct ModuleSyntax {
    pub nodes: Vec<SyntaxNode>,
    pub root_scope: usize,
    pub symbols: Vec<SymbolFact>,
    pub references: Vec<ReferenceFact>,
    pub tokens: Vec<(usize, usize)>,
    pub statements: Vec<(usize, usize)>,
    pub imports: Vec<ImportFact>,
    pub local_exports: Vec<LocalExportFact>,
    pub re_exports: Vec<ReExportFact>,
    pub stars: Vec<StarFact>,
    pub requests: Vec<RequestFact>,
    pub dynamic_imports: Vec<((usize, usize), (usize, usize))>,
}

/// What a column says at place `i`; one that ends earlier says nothing.
pub open spec fn said_at<T>(column: Seq<Option<T>>, i: int) -> Option<T> {
    if i < column.len() {
        column[i]
    } else {
        None
    }
}

/// The first of two answers that is one.
pub open spec fn either<T>(a: Option<T>, b: Option<T>) -> Option<T> {
    match a {
        Some(x) => Some(x),
        None => b,
    }
}

/// The node that the columns of the tree describe at place `i`.
pub open spec fn is_node_at(n: SyntaxNode, path: Seq<char>, source: Seq<char>, i: int) -> bool {
    &&& (n.kind@, n.parent, n.start, n.end) == tree_nodes(path, source)[i]
    &&& text_view(n.label) == either(
        said_at(tree_texts(path, source), i),
        said_at(tree_names(path, source), i),
    )
    &&& n.operand == either(
        said_at(tree_values(path, source), i),
        said_at(tree_subjects(path, source), i),
    )
    &&& n.wrapped == said_at(tree_wrapped(path, source), i)
    &&& n.marks == (if i < tree_marks(path, source).len() {
        tree_marks(path, source)[i]
    } else {
        (false, false, false)
    })
}

impl ModuleSyntax {
    /// This is the syntax of `source` read as the file at `path`.
    pub open spec fn is_of(self, path: Seq<char>, source: Seq<char>) -> bool {
        &&& self.nodes@.len() == tree_nodes(path, source).len()
        &&& forall|i: int|
            0 <= i < self.nodes@.len() ==> is_node_at(#[trigger] self.nodes@[i], path, source, i)
        &&& self.root_scope == tree_root(path, source)
        &&& self.symbols@.map_values(
            |s: SymbolFact| (s.name@, (s.scope, s.start, s.end), (s.is_value, s.is_type_import)),
        ) == tree_symbols(path, source)
        &&& self.references@.map_values(
            |r: ReferenceFact| (r.symbol, r.node, (r.start, r.end), r.type_only),
        ) == tree_references(path, source)
        &&& self.tokens@ == tree_tokens(path, source)
        &&& self.statements@ == tree_statements(path, source)
        &&& import_views(self.imports@) == tree_imports(path, source)
        &&& local_export_views(self.local_exports@) == tree_local_exports(path, source)
        &&& re_export_views(self.re_exports@) == tree_re_exports(path, source)
        &&& star_views(self.stars@) == tree_stars(path, source)
        &&& request_views(self.requests@).to_multiset() == tree_requests(path, source)
        &&& self.dynamic_imports@ == tree_dynamic_imports(path, source)
    }
}

fn copy_label(labels: &Vec<Option<String>>, i: usize) -> (r: Option<String>)
    ensures
        text_view(r) == said_at(label_views(labels@), i as int),
{
    if i < labels.len() {
        assert(label_views(labels@)[i as int] == text_view(labels@[i as int]));
        match &labels[i] {
            Some(text) => Some(text.clone()),
            None => None,
        }
    } else {
        None
    }
}

fn copy_number(numbers: &Vec<Option<usize>>, i: usize) -> (r: Option<usize>)
    ensures
        r == said_at(numbers@, i as int),
{
    if i < numbers.len() {
        numbers[i]
    } else {
        None
    }
}

fn join_nodes(path: &str, source: &str) -> (r: Vec<SyntaxNode>)
    requires
        is_supported(path@),
    ensures
        r@.len() == tree_nodes(path@, source@).len(),
        forall|i: int| 0 <= i < r@.len() ==> is_node_at(#[trigger] r@[i], path@, source@, i),
{
    let nodes = read_nodes(path, source);
    let texts = read_texts(path, source);
    let names = read_names(path, source);
    let values = read_values(path, source);
    let subjects = read_subjects(path, source);
    let wrapped = read_wrapped(path, source);
    let marks = read_marks(path, source);
    let mut out: Vec<SyntaxNode> = Vec::new();
    let mut i: usize = 0;
    while i < nodes.len()
        invariant
            i <= nodes.len(),
            out.len() == i,
            node_views(nodes@) == tree_nodes(path@, source@),
            label_views(texts@) == tree_texts(path@, source@),
            label_views(names@) == tree_names(path@, source@),
            values@ == tree_values(path@, source@),
            subjects@ == tree_subjects(path@, source@),
            wrapped@ == tree_wrapped(path@, source@),
            marks@ == tree_marks(path@, source@),
            forall|k: int| 0 <= k < i ==> is_node_at(#[trigger] out@[k], path@, source@, k),
        decreases nodes.len() - i,
    {
        let label: Option<String> = match copy_label(&texts, i) {
            Some(text) => Some(text),
            None => copy_label(&names, i),
        };
        let operand: Option<usize> = match copy_number(&values, i) {
            Some(node) => Some(node),
            None => copy_number(&subjects, i),
        };
        let inner = copy_number(&wrapped, i);
        let mark: (bool, bool, bool) = if i < marks.len() {
            marks[i]
        } else {
            (false, false, false)
        };
        let item = SyntaxNode {
            kind: nodes[i].0.clone(),
            parent: nodes[i].1,
            start: nodes[i].2,
            end: nodes[i].3,
            label,
            operand,
            wrapped: inner,
            marks: mark,
        };
        assert(node_views(nodes@)[i as int] == (item.kind@, item.parent, item.start, item.end));
        assert(is_node_at(item, path@, source@, i as int));
        out.push(item);
        i += 1;
    }
    out
}

/// Reads the syntax of `source`.
pub fn read_syntax(path: &str, source: &str) -> (r: ModuleSyntax)
    requires
        is_supported(path@),
    ensures
        r.is_of(path@, source@),
{
    let listed = read_symbols(path, source);
    let mut symbols: Vec<SymbolFact> = Vec::new();
    let ghost f = |s: SymbolFact|
        (s.name@, (s.scope, s.start, s.end), (s.is_value, s.is_type_import));
    let mut i: usize = 0;
    while i < listed.len()
        invariant
            i <= listed.len(),
            f == (|s: SymbolFact|
                (s.name@, (s.scope, s.start, s.end), (s.is_value, s.is_type_import))),
            symbols@.map_values(f) =~= symbol_views(listed@).take(i as int),
        decreases listed.len() - i,
    {
        let s = &listed[i];
        let item = SymbolFact {
            name: s.0.clone(),
            scope: s.1.0,
            start: s.1.1,
            end: s.1.2,
            is_value: s.2.0,
            is_type_import: s.2.1,
        };
        let ghost before = symbols@.map_values(f);
        symbols.push(item);
        assert(symbols@.map_values(f) =~= before.push(f(item)));
        i += 1;
    }
    assert(symbol_views(listed@).take(i as int) =~= symbol_views(listed@));
    let found = read_references(path, source);
    let mut references: Vec<ReferenceFact> = Vec::new();
    let ghost g = |r: ReferenceFact| (r.symbol, r.node, (r.start, r.end), r.type_only);
    let mut k: usize = 0;
    while k < found.len()
        invariant
            k <= found.len(),
            g == (|r: ReferenceFact| (r.symbol, r.node, (r.start, r.end), r.type_only)),
            references@.map_values(g) =~= found@.take(k as int),
        decreases found.len() - k,
    {
        let r = found[k];
        let item = ReferenceFact {
            symbol: r.0,
            node: r.1,
            start: r.2.0,
            end: r.2.1,
            type_only: r.3,
        };
        let ghost before = references@.map_values(g);
        references.push(item);
        assert(references@.map_values(g) =~= before.push(g(item)));
        k += 1;
    }
    assert(found@.take(k as int) =~= found@);
    ModuleSyntax {
        nodes: join_nodes(path, source),
        root_scope: read_root(path, source),
        symbols,
        references,
        tokens: read_tokens(path, source),
        statements: read_statements(path, source),
        imports: read_imports(path, source),
        local_exports: read_local_exports(path, source),
        re_exports: read_re_exports(path, source),
        stars: read_stars(path, source),
        requests: read_requests(path, source),
        dynamic_imports: read_dynamic_imports(path, source),
    }
}

} // verus!
