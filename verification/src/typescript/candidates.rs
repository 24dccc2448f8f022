//! Calls that may read a registry, and the declarations that promise that they do.
use oxc_allocator::Allocator;
use oxc_ast::ast::Argument;
use oxc_ast::AstKind;
use oxc_parser::Parser;
use oxc_semantic::SemanticBuilder;
use oxc_span::SourceType;
use vstd::prelude::*;

use crate::order::Key;
use crate::parser::syntax::{is_supported, read_syntax, said_at, text_view, ModuleSyntax, SymbolFact};
use crate::parser::MODULE_INIT;
use crate::path::{shown, FilePath};
use crate::text::same;
use crate::words::texts_of;

verus! {

pub type Text = Seq<char>;

/// The first argument of a call.
pub enum FirstArgument {
    Text(String),
    /// A template with this many expressions, and the text in front of the first.
    Template(usize, Option<String>),
    Object,
    /// A name, as the number of its node.
    Name(usize),
    Other,
}

pub ghost enum ArgumentModel {
    Text(Text),
    Template(usize, Option<Text>),
    Object,
    Name(usize),
    Other,
}

impl View for FirstArgument {
    type V = ArgumentModel;

    open spec fn view(&self) -> ArgumentModel {
        match self {
            FirstArgument::Text(text) => ArgumentModel::Text(text@),
            FirstArgument::Template(n, first) => ArgumentModel::Template(*n, text_view(*first)),
            FirstArgument::Object => ArgumentModel::Object,
            FirstArgument::Name(node) => ArgumentModel::Name(*node),
            FirstArgument::Other => ArgumentModel::Other,
        }
    }
}

pub open spec fn argument_views(list: Seq<FirstArgument>) -> Seq<ArgumentModel> {
    list.map_values(|a: FirstArgument| a@)
}

/// The first argument of each call, in the order of the nodes; one that is a template is not told.
pub uninterp spec fn tree_arguments(path: Seq<char>, source: Seq<char>) -> Seq<ArgumentModel>;

/// The first entry of `CallExpression::arguments`, as far as it is no template.
#[verifier::external_body]
fn read_arguments(path: &str, source: &str) -> (r: Vec<FirstArgument>)
    requires
        is_supported(path@),
    ensures
        argument_views(r@) == tree_arguments(path@, source@),
{
    let allocator = Allocator::default();
    let parsed = Parser::new(&allocator, source, SourceType::from_path(path).unwrap()).parse();
    let semantic = SemanticBuilder::new().build(&parsed.program).semantic;
    let calls = semantic.nodes().iter().map(|node| node.kind().as_call_expression());
    calls.map(|call| match call.and_then(|call| call.arguments.first()) {
        Some(Argument::StringLiteral(s)) => FirstArgument::Text(s.value.to_string()),
        Some(Argument::ObjectExpression(_)) => FirstArgument::Object,
        Some(Argument::Identifier(i)) => {
            FirstArgument::Name(AstKind::IdentifierReference(i).node_id().index())
        },
        _ => FirstArgument::Other,
    }).collect()
}

/// The calls whose first argument is a template, in the order of the nodes: how many expressions
/// it holds, and the text in front of the first.
pub uninterp spec fn tree_templates(path: Seq<char>, source: Seq<char>) -> Seq<
    Option<(usize, Option<Seq<char>>)>,
>;

pub open spec fn template_views(list: Seq<Option<(usize, Option<String>)>>) -> Seq<
    Option<(usize, Option<Text>)>,
> {
    list.map_values(
        |t: Option<(usize, Option<String>)>|
            match t {
                Some((n, first)) => Some((n, text_view(first))),
                None => None,
            },
    )
}

/// The first entry of `CallExpression::arguments`, where it is a template.
#[verifier::external_body]
fn read_templates(path: &str, source: &str) -> (r: Vec<Option<(usize, Option<String>)>>)
    requires
        is_supported(path@),
    ensures
        template_views(r@) == tree_templates(path@, source@),
{
    let allocator = Allocator::default();
    let parsed = Parser::new(&allocator, source, SourceType::from_path(path).unwrap()).parse();
    let semantic = SemanticBuilder::new().build(&parsed.program).semantic;
    let first = |quasi: &oxc_ast::ast::TemplateElement| quasi.value.cooked.map(|c| c.to_string());
    let calls = semantic.nodes().iter().map(|node| node.kind().as_call_expression());
    calls.map(|call| match call.and_then(|call| call.arguments.first()) {
        Some(Argument::TemplateLiteral(t)) => {
            Some((t.expressions.len(), t.quasis.first().and_then(first)))
        },
        _ => None,
    }).collect()
}

/// The first arguments, templates among them.
pub open spec fn first_arguments(
    plain: Seq<ArgumentModel>,
    templates: Seq<Option<(usize, Option<Text>)>>,
) -> Seq<ArgumentModel> {
    Seq::new(
        plain.len(),
        |i: int|
            match said_at(templates, i) {
                Some((n, first)) => ArgumentModel::Template(n, first),
                None => plain[i],
            },
    )
}

fn join_arguments(
    plain: Vec<FirstArgument>,
    templates: &Vec<Option<(usize, Option<String>)>>,
) -> (r: Vec<FirstArgument>)
    ensures
        argument_views(r@) == first_arguments(
            argument_views(plain@),
            template_views(templates@),
        ),
{
    let ghost given = plain@;
    let mut out: Vec<FirstArgument> = Vec::new();
    for argument in it: plain
        invariant
            it.seq() == given,
            out.len() == it.index(),
            forall|k: int|
                0 <= k < out.len() ==> (#[trigger] out@[k])@ == first_arguments(
                    argument_views(given),
                    template_views(templates@),
                )[k],
    {
        let i: usize = out.len();
        let item = if i < templates.len() {
            assert(template_views(templates@)[i as int] == match templates@[i as int] {
                Some((n, first)) => Some((n, text_view(first))),
                None => None,
            });
            match &templates[i] {
                Some((n, first)) => FirstArgument::Template(
                    *n,
                    match first {
                        Some(text) => Some(text.clone()),
                        None => None,
                    },
                ),
                None => argument,
            }
        } else {
            argument
        };
        out.push(item);
    }
    assert(argument_views(out@) =~= first_arguments(
        argument_views(given),
        template_views(templates@),
    ));
    out
}

/// The property that each call calls, in the order of the nodes: the byte where it starts, and its
/// name.
pub uninterp spec fn tree_properties(path: Seq<char>, source: Seq<char>) -> Seq<
    Option<(usize, Seq<char>)>,
>;

pub open spec fn property_views(list: Seq<Option<(usize, String)>>) -> Seq<Option<(usize, Text)>> {
    list.map_values(
        |p: Option<(usize, String)>|
            match p {
                Some((at, name)) => Some((at, name@)),
                None => None,
            },
    )
}

/// `MemberExpression::static_property_info` of the expression inside each callee.
#[verifier::external_body]
fn read_properties(path: &str, source: &str) -> (r: Vec<Option<(usize, String)>>)
    requires
        is_supported(path@),
    ensures
        property_views(r@) == tree_properties(path@, source@),
{
    let allocator = Allocator::default();
    let parsed = Parser::new(&allocator, source, SourceType::from_path(path).unwrap()).parse();
    let semantic = SemanticBuilder::new().build(&parsed.program).semantic;
    let calls = semantic.nodes().iter().map(|node| node.kind().as_call_expression());
    calls.map(|call| {
        let callee = call.map(|call| call.callee.get_inner_expression());
        let member = callee.and_then(|callee| callee.as_member_expression());
        let info = member.and_then(|member| member.static_property_info());
        info.map(|(span, name)| (span.start as usize, name.to_string()))
    }).collect()
}

/// The method signatures, in the order of the nodes: whether the name is computed, which of the
/// type parameters are constrained, and the name.
pub uninterp spec fn tree_signatures(path: Seq<char>, source: Seq<char>) -> Seq<
    Option<(bool, Seq<bool>, Option<Seq<char>>)>,
>;

pub type SignatureFact = (bool, Vec<bool>, Option<String>);

pub open spec fn signature_views(list: Seq<Option<SignatureFact>>) -> Seq<
    Option<(bool, Seq<bool>, Option<Text>)>,
> {
    list.map_values(
        |s: Option<SignatureFact>|
            match s {
                Some((computed, constraints, name)) => Some(
                    (computed, constraints@, text_view(name)),
                ),
                None => None,
            },
    )
}

/// `TSMethodSignature`: its fields `computed` and `type_parameters`, and `PropertyKey::static_name`.
#[verifier::external_body]
fn read_signatures(path: &str, source: &str) -> (r: Vec<Option<SignatureFact>>)
    requires
        is_supported(path@),
    ensures
        signature_views(r@) == tree_signatures(path@, source@),
{
    let allocator = Allocator::default();
    let parsed = Parser::new(&allocator, source, SourceType::from_path(path).unwrap()).parse();
    let semantic = SemanticBuilder::new().build(&parsed.program).semantic;
    let methods = semantic.nodes().iter().map(|node| node.kind().as_ts_method_signature());
    methods.map(|method| method.map(|m| {
        let parameters = m.type_parameters.iter().flat_map(|list| list.params.iter());
        let constraints = parameters.map(|p| p.constraint.is_some()).collect();
        (m.computed, constraints, m.key.static_name().map(|name| name.into_owned()))
    })).collect()
}

/// What the calls and signatures of a module look like, in the order of its nodes.
pub struct TypeSyntax {
    pub arguments: Vec<FirstArgument>,
    pub properties: Vec<Option<(usize, String)>>,
    pub signatures: Vec<Option<SignatureFact>>,
}

impl TypeSyntax {
    pub open spec fn is_of(self, path: Text, source: Text) -> bool {
        &&& argument_views(self.arguments@) == first_arguments(
            tree_arguments(path, source),
            tree_templates(path, source),
        )
        &&& property_views(self.properties@) == tree_properties(path, source)
        &&& signature_views(self.signatures@) == tree_signatures(path, source)
    }
}

/// Reads the calls and signatures of a module.
pub fn read_type_syntax(path: &str, source: &str) -> (r: TypeSyntax)
    requires
        is_supported(path@),
    ensures
        r.is_of(path@, source@),
{
    let templates = read_templates(path, source);
    TypeSyntax {
        arguments: join_arguments(read_arguments(path, source), &templates),
        properties: read_properties(path, source),
        signatures: read_signatures(path, source),
    }
}

/// A method that reads a registry by a constrained key, and the declaration that holds it.
pub struct Contract {
    pub owner: String,
    pub method: String,
}

/// A call of a method: the symbol that makes it, and the keys where they are literal.
pub struct Callsite {
    pub file: FilePath,
    pub consumer: String,
    pub method: String,
    pub keys: Option<Vec<String>>,
    pub offset: usize,
}

pub type ContractModel = (Text, Text);

#[verifier::ext_equal]
pub ghost struct CallModel {
    pub consumer: Text,
    pub method: Text,
    pub keys: Option<Seq<Text>>,
    pub offset: int,
}

pub open spec fn keys_view(keys: Option<Vec<String>>) -> Option<Seq<Text>> {
    match keys {
        Some(list) => Some(texts_of(list@)),
        None => None,
    }
}

impl Callsite {
    pub open spec fn call(self) -> CallModel {
        CallModel {
            consumer: self.consumer@,
            method: self.method@,
            keys: keys_view(self.keys),
            offset: self.offset as int,
        }
    }
}

pub open spec fn contract_models(list: Seq<Contract>) -> Seq<ContractModel> {
    list.map_values(|c: Contract| (c.owner@, c.method@))
}

pub open spec fn call_models(list: Seq<Callsite>) -> Seq<CallModel> {
    list.map_values(|c: Callsite| c.call())
}

pub open spec fn extent(start: usize, end: usize) -> int {
    if start <= end {
        end - start
    } else {
        0
    }
}

impl ModuleSyntax {
    /// A declaration of the module that encloses a place.
    pub open spec fn encloses(self, k: int, start: usize, end: usize, runtime_only: bool) -> bool {
        let s = self.symbols@[k];
        &&& s.scope == self.root_scope
        &&& !runtime_only || s.is_value
        &&& s.start <= start
        &&& end <= s.end
    }

    /// The smallest of the first `n` declarations that enclose a place, and of equally small ones
    /// the first.
    pub open spec fn smallest_around(
        self,
        start: usize,
        end: usize,
        runtime_only: bool,
        n: int,
    ) -> Option<int>
        decreases n,
    {
        if n <= 0 {
            None
        } else {
            let best = self.smallest_around(start, end, runtime_only, n - 1);
            if !self.encloses(n - 1, start, end, runtime_only) {
                best
            } else {
                match best {
                    Some(k) => {
                        let a = self.symbols@[n - 1];
                        let b = self.symbols@[k];
                        if extent(a.start, a.end) < extent(b.start, b.end) {
                            Some(n - 1)
                        } else {
                            best
                        }
                    },
                    None => Some(n - 1),
                }
            }
        }
    }

    pub open spec fn enclosing_symbol(self, start: usize, end: usize, runtime_only: bool) -> Option<
        Text,
    > {
        match self.smallest_around(start, end, runtime_only, self.symbols@.len() as int) {
            Some(k) => Some(self.symbols@[k].name@),
            None => None,
        }
    }

    /// A declarator that gives what `s` declares an object.
    pub open spec fn binds_object(self, k: int, s: SymbolFact) -> bool {
        let n = self.nodes@[k];
        &&& n.kind@ == "VariableDeclarator"@
        &&& n.start <= s.start
        &&& s.end <= n.end
        &&& match n.operand {
            Some(o) => o < self.nodes@.len() && self.nodes@[o as int].kind@ == "ObjectExpression"@,
            None => false,
        }
    }

    /// A node names something that is declared as an object.
    pub open spec fn names_object(self, node: usize) -> bool {
        exists|r: int, k: int|
            0 <= r < self.references@.len() && (#[trigger] self.references@[r]).node == node
                && self.references@[r].symbol < self.symbols@.len() && 0 <= k < self.nodes@.len()
                && #[trigger] self.binds_object(
                k,
                self.symbols@[self.references@[r].symbol as int],
            )
    }

    /// The promise that a node makes.
    pub open spec fn contract_at(self, types: TypeSyntax, i: int) -> Option<ContractModel> {
        if i >= types.signatures@.len() {
            None
        } else {
            match signature_views(types.signatures@)[i] {
                Some((computed, constraints, Some(name))) => if !computed && constraints.contains(
                    true,
                ) {
                    match self.enclosing_symbol(self.nodes@[i].start, self.nodes@[i].end, false) {
                        Some(owner) => Some((owner, name)),
                        None => None,
                    }
                } else {
                    None
                },
                _ => None,
            }
        }
    }

    /// The keys that a call may read: none where its argument is an object, the literal one, or
    /// any.
    pub open spec fn keys_of(self, argument: ArgumentModel) -> Option<Option<Seq<Text>>> {
        match argument {
            ArgumentModel::Text(text) => Some(Some(seq![text])),
            ArgumentModel::Template(n, first) => Some(
                match first {
                    Some(text) => if n == 0 {
                        Some(seq![text])
                    } else {
                        None
                    },
                    None => None,
                },
            ),
            ArgumentModel::Object => None,
            ArgumentModel::Name(node) => if self.names_object(node) {
                None
            } else {
                Some(None)
            },
            ArgumentModel::Other => Some(None),
        }
    }

    pub open spec fn argument_at(self, types: TypeSyntax, i: int) -> ArgumentModel {
        if i < types.arguments@.len() {
            types.arguments@[i]@
        } else {
            ArgumentModel::Other
        }
    }

    /// The call that a node makes.
    pub open spec fn call_at(self, types: TypeSyntax, i: int) -> Option<CallModel> {
        if i >= types.properties@.len() {
            None
        } else {
            match property_views(types.properties@)[i] {
                Some((at, method)) => match self.keys_of(self.argument_at(types, i)) {
                    Some(keys) => Some(
                        CallModel {
                            consumer: match self.enclosing_symbol(
                                self.nodes@[i].start,
                                self.nodes@[i].end,
                                true,
                            ) {
                                Some(name) => name,
                                None => MODULE_INIT@,
                            },
                            method,
                            keys,
                            offset: at as int,
                        },
                    ),
                    None => None,
                },
                None => None,
            }
        }
    }

    pub open spec fn contracts(self, types: TypeSyntax, n: int) -> Seq<ContractModel>
        decreases n,
    {
        if n <= 0 {
            Seq::empty()
        } else {
            match self.contract_at(types, n - 1) {
                Some(c) => self.contracts(types, n - 1).push(c),
                None => self.contracts(types, n - 1),
            }
        }
    }

    pub open spec fn calls(self, types: TypeSyntax, n: int) -> Seq<CallModel>
        decreases n,
    {
        if n <= 0 {
            Seq::empty()
        } else {
            match self.call_at(types, n - 1) {
                Some(c) => self.calls(types, n - 1).push(c),
                None => self.calls(types, n - 1),
            }
        }
    }
}

impl ModuleSyntax {
    fn find_enclosing(&self, start: usize, end: usize, runtime_only: bool) -> (r: Option<String>)
        ensures
            r.model() == self.enclosing_symbol(start, end, runtime_only),
    {
        let mut best: Option<usize> = None;
        let mut i: usize = 0;
        while i < self.symbols.len()
            invariant
                i <= self.symbols.len(),
                match best {
                    Some(k) => k < i && self.smallest_around(start, end, runtime_only, i as int)
                        == Some(k as int),
                    None => self.smallest_around(start, end, runtime_only, i as int) is None,
                },
            decreases self.symbols.len() - i,
        {
            let s = &self.symbols[i];
            if s.scope == self.root_scope && (!runtime_only || s.is_value) && s.start <= start && end
                <= s.end {
                best =
                match best {
                    Some(k) => {
                        let other = &self.symbols[k];
                        if measure(s.start, s.end) < measure(other.start, other.end) {
                            Some(i)
                        } else {
                            Some(k)
                        }
                    },
                    None => Some(i),
                };
            }
            i += 1;
        }
        match best {
            Some(k) => Some(self.symbols[k].name.clone()),
            None => None,
        }
    }

    fn does_bind_object(&self, k: usize, s: &SymbolFact) -> (r: bool)
        requires
            k < self.nodes@.len(),
        ensures
            r == self.binds_object(k as int, *s),
    {
        let n = &self.nodes[k];
        same(n.kind.as_str(), "VariableDeclarator") && n.start <= s.start && s.end <= n.end
            && match n.operand {
            Some(o) => o < self.nodes.len() && same(
                self.nodes[o].kind.as_str(),
                "ObjectExpression",
            ),
            None => false,
        }
    }

    fn is_bound_to_object(&self, s: &SymbolFact) -> (r: bool)
        ensures
            r == (exists|k: int| 0 <= k < self.nodes@.len() && #[trigger] self.binds_object(k, *s)),
    {
        let mut k: usize = 0;
        while k < self.nodes.len()
            invariant
                k <= self.nodes.len(),
                forall|j: int| 0 <= j < k ==> !#[trigger] self.binds_object(j, *s),
            decreases self.nodes.len() - k,
        {
            if self.does_bind_object(k, s) {
                return true;
            }
            k += 1;
        }
        false
    }

    fn does_name_object(&self, node: usize) -> (r: bool)
        ensures
            r == self.names_object(node),
    {
        let mut i: usize = 0;
        while i < self.references.len()
            invariant
                i <= self.references.len(),
                forall|r: int, k: int|
                    0 <= r < i && (#[trigger] self.references@[r]).node == node
                        && self.references@[r].symbol < self.symbols@.len() && 0 <= k
                        < self.nodes@.len() ==> !#[trigger] self.binds_object(
                        k,
                        self.symbols@[self.references@[r].symbol as int],
                    ),
            decreases self.references.len() - i,
        {
            let r = &self.references[i];
            if r.node == node && r.symbol < self.symbols.len() {
                if self.is_bound_to_object(&self.symbols[r.symbol]) {
                    proof {
                        let s = self.symbols@[r.symbol as int];
                        let k = choose|k: int|
                            0 <= k < self.nodes@.len() && #[trigger] self.binds_object(k, s);
                        assert(self.references@[i as int].node == node);
                        assert(self.binds_object(
                            k,
                            self.symbols@[self.references@[i as int].symbol as int],
                        ));
                    }
                    return true;
                }
            }
            i += 1;
        }
        false
    }

    fn find_contract(&self, types: &TypeSyntax, i: usize) -> (r: Option<Contract>)
        requires
            i < self.nodes@.len(),
        ensures
            match r {
                Some(c) => self.contract_at(*types, i as int) == Some((c.owner@, c.method@)),
                None => self.contract_at(*types, i as int) is None,
            },
    {
        if i >= types.signatures.len() {
            return None;
        }
        assert(signature_views(types.signatures@)[i as int] == match types.signatures@[i as int] {
            Some((computed, constraints, name)) => Some((computed, constraints@, text_view(name))),
            None => None,
        });
        match &types.signatures[i] {
            Some((computed, constraints, Some(name))) => {
                if !*computed && has_constraint(constraints) {
                    match self.find_enclosing(self.nodes[i].start, self.nodes[i].end, false) {
                        Some(owner) => Some(Contract { owner, method: name.clone() }),
                        None => None,
                    }
                } else {
                    None
                }
            },
            _ => None,
        }
    }

    fn list_keys(&self, argument: &FirstArgument) -> (r: Option<Option<Vec<String>>>)
        ensures
            match r {
                Some(keys) => self.keys_of(argument@) == Some(keys_view(keys)),
                None => self.keys_of(argument@) is None,
            },
    {
        match argument {
            FirstArgument::Text(text) => Some(Some(one_text(text))),
            FirstArgument::Template(n, first) => match first {
                Some(text) => if *n == 0 {
                    Some(Some(one_text(text)))
                } else {
                    Some(None)
                },
                None => Some(None),
            },
            FirstArgument::Object => None,
            FirstArgument::Name(node) => if self.does_name_object(*node) {
                None
            } else {
                Some(None)
            },
            FirstArgument::Other => Some(None),
        }
    }

    fn find_call(&self, types: &TypeSyntax, file: &FilePath, i: usize) -> (r: Option<Callsite>)
        requires
            i < self.nodes@.len(),
        ensures
            match r {
                Some(c) => self.call_at(*types, i as int) == Some(c.call()) && c.file@ == file@,
                None => self.call_at(*types, i as int) is None,
            },
    {
        if i >= types.properties.len() {
            return None;
        }
        assert(property_views(types.properties@)[i as int] == match types.properties@[i as int] {
            Some((at, name)) => Some((at, name@)),
            None => None,
        });
        match &types.properties[i] {
            Some((at, method)) => {
                let keys = if i < types.arguments.len() {
                    self.list_keys(&types.arguments[i])
                } else {
                    self.list_keys(&FirstArgument::Other)
                };
                match keys {
                    Some(keys) => {
                        let consumer = match self.find_enclosing(
                            self.nodes[i].start,
                            self.nodes[i].end,
                            true,
                        ) {
                            Some(name) => name,
                            None => MODULE_INIT.to_owned(),
                        };
                        Some(
                            Callsite {
                                file: file.dup(),
                                consumer,
                                method: method.clone(),
                                keys,
                                offset: *at,
                            },
                        )
                    },
                    None => None,
                }
            },
            None => None,
        }
    }

    /// The promises that the module makes.
    pub fn list_contracts(&self, types: &TypeSyntax) -> (r: Vec<Contract>)
        ensures
            contract_models(r@) == self.contracts(*types, self.nodes@.len() as int),
    {
        let mut out: Vec<Contract> = Vec::new();
        let mut i: usize = 0;
        assert(contract_models(out@) =~= Seq::empty());
        while i < self.nodes.len()
            invariant
                i <= self.nodes.len(),
                contract_models(out@) == self.contracts(*types, i as int),
            decreases self.nodes.len() - i,
        {
            match self.find_contract(types, i) {
                Some(c) => {
                    let ghost m = (c.owner@, c.method@);
                    let ghost before = contract_models(out@);
                    out.push(c);
                    assert(contract_models(out@) =~= before.push(m));
                },
                None => {},
            }
            i += 1;
        }
        out
    }

    /// The calls that the module makes.
    pub fn list_calls(&self, types: &TypeSyntax, file: &FilePath) -> (r: Vec<Callsite>)
        ensures
            call_models(r@) == self.calls(*types, self.nodes@.len() as int),
            forall|i: int| 0 <= i < r@.len() ==> (#[trigger] r@[i]).file@ == file@,
    {
        let mut out: Vec<Callsite> = Vec::new();
        let mut i: usize = 0;
        assert(call_models(out@) =~= Seq::empty());
        while i < self.nodes.len()
            invariant
                i <= self.nodes.len(),
                call_models(out@) == self.calls(*types, i as int),
                forall|k: int| 0 <= k < out@.len() ==> (#[trigger] out@[k]).file@ == file@,
            decreases self.nodes.len() - i,
        {
            match self.find_call(types, file, i) {
                Some(c) => {
                    let ghost m = c.call();
                    let ghost before = call_models(out@);
                    out.push(c);
                    assert(call_models(out@) =~= before.push(m));
                },
                None => {},
            }
            i += 1;
        }
        out
    }
}

fn measure(start: usize, end: usize) -> (r: usize)
    ensures
        r == extent(start, end),
{
    if start <= end {
        end - start
    } else {
        0
    }
}

fn has_constraint(constraints: &Vec<bool>) -> (r: bool)
    ensures
        r == constraints@.contains(true),
{
    let mut i: usize = 0;
    while i < constraints.len()
        invariant
            i <= constraints.len(),
            forall|k: int| 0 <= k < i ==> !#[trigger] constraints@[k],
        decreases constraints.len() - i,
    {
        if constraints[i] {
            assert(constraints@[i as int] == true);
            return true;
        }
        i += 1;
    }
    false
}

fn one_text(text: &String) -> (r: Vec<String>)
    ensures
        texts_of(r@) == seq![text@],
{
    let mut out: Vec<String> = Vec::new();
    out.push(text.clone());
    assert(texts_of(out@) =~= seq![text@]);
    out
}

/// What the calls of a module may read and what its declarations promise.
pub open spec fn are_candidates(
    path: Text,
    source: Text,
    contracts: Seq<Contract>,
    calls: Seq<Callsite>,
) -> bool {
    exists|syntax: ModuleSyntax, types: TypeSyntax|
        #![trigger syntax.is_of(path, source), types.is_of(path, source)]
        {
            &&& syntax.is_of(path, source)
            &&& types.is_of(path, source)
            &&& contract_models(contracts) == syntax.contracts(types, syntax.nodes@.len() as int)
            &&& call_models(calls) == syntax.calls(types, syntax.nodes@.len() as int)
        }
}

/// Collects the promises and the calls of a module.
pub fn collect_candidates(path: &FilePath, source: &str) -> (r: (Vec<Contract>, Vec<Callsite>))
    requires
        is_supported(shown(path@)),
    ensures
        are_candidates(shown(path@), source@, r.0@, r.1@),
        forall|i: int| 0 <= i < r.1@.len() ==> (#[trigger] r.1@[i]).file@ == path@,
{
    let name = path.display();
    let syntax = read_syntax(name.as_str(), source);
    let types = read_type_syntax(name.as_str(), source);
    let contracts = syntax.list_contracts(&types);
    let calls = syntax.list_calls(&types, path);
    proof {
        assert(syntax.is_of(shown(path@), source@) && types.is_of(shown(path@), source@));
    }
    (contracts, calls)
}

} // verus!
