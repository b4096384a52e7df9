use vstd::prelude::*;
use crate::location::Location;
use crate::location::Range;
use crate::strutil::scoped;
use crate::strutil::spec_join;
use crate::strutil::spec_scoped;
use crate::strutil::join_names;

verus! {

/// The shape of one syntax-tree node, as far as reference extraction reads
/// it. `Dynamic` stands for call-, variable- and self-expressions, whose
/// value only running the program would reveal; `Other` stands for every
/// remaining node kind, which contributes nothing itself but whose children
/// are walked in order.
pub enum RubyNode {
    /// A class definition: its name expression, optional superclass
    /// expression, optional body, and the byte offsets of the whole node.
    Class {
        name: Box<RubyNode>,
        superclass: Option<Box<RubyNode>>,
        body: Option<Box<RubyNode>>,
        loc: Location,
    },
    /// A module definition: its name expression and optional body.
    Module { name: Box<RubyNode>, body: Option<Box<RubyNode>> },
    /// A constant assignment `NAME = value`; the assigned value is never
    /// walked, so it is not represented.
    Casgn { scope: Option<Box<RubyNode>>, name: String, loc: Location },
    /// A constant path such as `A` or `A::B`, with an optional scope
    /// expression.
    Const { scope: Option<Box<RubyNode>>, name: String, loc: Location },
    /// The top-level scope marker, the leading `::`.
    Cbase,
    /// A dynamically valued expression: a method call, a local or instance
    /// variable, or `self`. Its children are still walked.
    Dynamic { children: Vec<RubyNode> },
    /// Any other node kind; only its children matter.
    Other { children: Vec<RubyNode> },
}

/// Why extraction of a whole file failed.
#[derive(Clone, Copy, Debug, PartialEq, Eq, Structural)]
pub enum ExtractError {
    /// A name or scope position held an expression kind the extractor does
    /// not handle.
    UnsupportedNameExpression,
    /// A module's name could not be resolved statically.
    DynamicModuleName,
}

/// What resolving a name expression yields at the specification level.
pub enum SpecResolution {
    Resolved(Seq<char>),
    Dynamic,
    Unsupported,
}

/// What resolving a name expression yields: the resolved text, a dynamic
/// (metaprogrammed) name, or an unsupported expression kind.
pub enum NameResolution {
    Resolved(String),
    Dynamic,
    Unsupported,
}

/// How an executable resolution corresponds to its specification.
pub open spec fn resolution_matches(r: NameResolution, s: SpecResolution) -> bool {
    match r {
        NameResolution::Resolved(t) => s == SpecResolution::Resolved(t@),
        NameResolution::Dynamic => s is Dynamic,
        NameResolution::Unsupported => s is Unsupported,
    }
}

/// Resolution of a name expression: a lone constant resolves to itself, a
/// scoped constant to `parent::name`, the top-level marker to the empty
/// parent, and dynamic expressions to `Dynamic`.
pub open spec fn spec_resolve_name(n: RubyNode) -> SpecResolution
    decreases n,
{
    match n {
        RubyNode::Const { scope, name, .. } => spec_resolve_scoped(scope, name@),
        RubyNode::Cbase => SpecResolution::Resolved(Seq::empty()),
        RubyNode::Dynamic { .. } => SpecResolution::Dynamic,
        _ => SpecResolution::Unsupported,
    }
}

/// Resolution of a possibly scoped name: the scope is resolved recursively
/// and joined with `::`.
pub open spec fn spec_resolve_scoped(scope: Option<Box<RubyNode>>, name: Seq<char>) -> SpecResolution
    decreases scope,
{
    match scope {
        Option::None => SpecResolution::Resolved(name),
        Option::Some(s) => match spec_resolve_name(*s) {
            SpecResolution::Resolved(parent) => SpecResolution::Resolved(
                spec_scoped(parent, name),
            ),
            SpecResolution::Dynamic => SpecResolution::Dynamic,
            SpecResolution::Unsupported => SpecResolution::Unsupported,
        },
    }
}

/// Resolves a class-, module- or scope-name expression to its constant text.
pub fn fetch_const_name(node: &RubyNode) -> (r: NameResolution)
    ensures
        resolution_matches(r, spec_resolve_name(*node)),
    decreases *node,
{
    match node {
        RubyNode::Const { scope, name, .. } => fetch_scoped_name(scope, name),
        RubyNode::Cbase => NameResolution::Resolved(String::new()),
        RubyNode::Dynamic { .. } => NameResolution::Dynamic,
        _ => NameResolution::Unsupported,
    }
}

/// Resolves the shared scope-and-name shape of constant references and
/// constant assignments.
pub fn fetch_scoped_name(scope: &Option<Box<RubyNode>>, name: &String) -> (r: NameResolution)
    ensures
        resolution_matches(r, spec_resolve_scoped(*scope, name@)),
    decreases *scope,
{
    match scope {
        Option::None => NameResolution::Resolved(name.clone()),
        Option::Some(s) => match fetch_const_name(&**s) {
            NameResolution::Resolved(parent) => NameResolution::Resolved(
                scoped(parent.as_str(), name.as_str()),
            ),
            NameResolution::Dynamic => NameResolution::Dynamic,
            NameResolution::Unsupported => NameResolution::Unsupported,
        },
    }
}

/// The cumulative join of the parts, except that an empty accumulated prefix
/// is dropped rather than joined.
pub open spec fn spec_nesting_join(parts: Seq<Seq<char>>) -> Seq<char>
    decreases parts.len(),
{
    if parts.len() == 0 {
        Seq::empty()
    } else if parts.len() == 1 {
        parts[0]
    } else {
        let prev = spec_nesting_join(parts.drop_last());
        if prev.len() == 0 {
            parts.last()
        } else {
            spec_scoped(prev, parts.last())
        }
    }
}

/// The value of the enclosing-scope lookup order for a namespace stack
/// (outermost first): the cumulative joined names, innermost first.
pub open spec fn spec_nesting(stack: Seq<Seq<char>>) -> Seq<Seq<char>> {
    Seq::new(stack.len(), |i: int| spec_nesting_join(stack.take(stack.len() - i)))
}

proof fn lemma_nesting_join_step(parts: Seq<Seq<char>>, i: int)
    requires
        0 <= i < parts.len(),
    ensures
        spec_nesting_join(parts.take(i + 1)) == if i == 0 {
            parts[0]
        } else if spec_nesting_join(parts.take(i)).len() == 0 {
            parts[i]
        } else {
            spec_scoped(spec_nesting_join(parts.take(i)), parts[i])
        },
{
    let t = parts.take(i + 1);
    if i == 0 {
        assert(t.len() == 1);
        assert(t[0] == parts[0]);
    } else {
        assert(t.drop_last() =~= parts.take(i));
        assert(t.last() == parts[i]);
    }
}

/// Computes the enclosing-scope lookup order at a reference site from the
/// current namespace stack (outermost first): the cumulative joined names,
/// innermost first, recomputed at every site.
pub fn calculate_module_nesting(namespace_nesting: &Vec<String>) -> (r: Vec<String>)
    ensures
        r.deep_view() == spec_nesting(namespace_nesting.deep_view()),
{
    let ghost sv: Seq<Seq<char>> = namespace_nesting.deep_view();
    let mut nesting: Vec<String> = Vec::new();
    let mut previous: String = String::new();
    let mut i: usize = 0;
    while i < namespace_nesting.len()
        invariant
            i <= sv.len(),
            sv == namespace_nesting.deep_view(),
            sv.len() == namespace_nesting@.len(),
            forall|j: int| 0 <= j < sv.len() ==> sv[j] == namespace_nesting@[j]@,
            previous@ == spec_nesting_join(sv.take(i as int)),
            nesting@.len() == i,
            forall|j: int| 0 <= j < i ==> nesting@[j]@ == spec_nesting_join(sv.take(i - j)),
        decreases sv.len() - i,
    {
        let ns = &namespace_nesting[i];
        let new_nesting: String = if previous.as_str().is_empty() {
            ns.clone()
        } else {
            scoped(previous.as_str(), ns.as_str())
        };
        proof {
            lemma_nesting_join_step(sv, i as int);
            assert(new_nesting@ == spec_nesting_join(sv.take(i + 1)));
        }
        previous = new_nesting.clone();
        nesting.insert(0, new_nesting);
        i = i + 1;
    }
    proof {
        assert(nesting.deep_view().len() == sv.len());
        assert forall|j: int| 0 <= j < sv.len() implies nesting.deep_view()[j] == spec_nesting(
            sv,
        )[j] by {
            assert(nesting@[j]@ == spec_nesting_join(sv.take(sv.len() - j)));
        }
        assert(nesting.deep_view() =~= spec_nesting(sv));
    }
    nesting
}

/// A use of a symbol, before byte offsets are resolved to rows and columns.
pub struct ParsedReference {
    pub name: String,
    pub module_nesting: Vec<String>,
    pub location: Location,
}

/// The mathematical value of a `ParsedReference`.
pub struct ParsedReferenceView {
    pub name: Seq<char>,
    pub module_nesting: Seq<Seq<char>>,
    pub location: Location,
}

impl View for ParsedReference {
    type V = ParsedReferenceView;

    open spec fn view(&self) -> ParsedReferenceView {
        ParsedReferenceView {
            name: self.name@,
            module_nesting: self.module_nesting.deep_view(),
            location: self.location,
        }
    }
}

/// A point where a symbol is declared, under its fully-qualified name. The
/// location is the raw byte-offset pair; definitions only serve to filter
/// same-file references and are not reported.
pub struct ParsedDefinition {
    pub fully_qualified_name: String,
    pub location: Location,
}

/// The mathematical value of a `ParsedDefinition`.
pub struct ParsedDefinitionView {
    pub fully_qualified_name: Seq<char>,
    pub location: Location,
}

impl View for ParsedDefinition {
    type V = ParsedDefinitionView;

    open spec fn view(&self) -> ParsedDefinitionView {
        ParsedDefinitionView {
            fully_qualified_name: self.fully_qualified_name@,
            location: self.location,
        }
    }
}

/// A use of a symbol at a resolved source location, together with the
/// enclosing lexical nesting, innermost first.
pub struct Reference {
    pub name: String,
    pub module_nesting: Vec<String>,
    pub location: Range,
}

/// The mathematical value of a `Reference`.
pub struct ReferenceView {
    pub name: Seq<char>,
    pub module_nesting: Seq<Seq<char>>,
    pub location: Range,
}

impl View for Reference {
    type V = ReferenceView;

    open spec fn view(&self) -> ReferenceView {
        ReferenceView {
            name: self.name@,
            module_nesting: self.module_nesting.deep_view(),
            location: self.location,
        }
    }
}

/// Everything the traversal of one subtree collects: references and
/// definitions in traversal order, or the error that aborted it.
#[verifier::ext_equal]
pub struct SpecOut {
    pub references: Seq<ParsedReferenceView>,
    pub definitions: Seq<ParsedDefinitionView>,
    pub error: Option<ExtractError>,
}

/// A traversal that collected nothing.
pub open spec fn empty_out() -> SpecOut {
    SpecOut { references: Seq::empty(), definitions: Seq::empty(), error: None }
}

/// A traversal aborted by `e`.
pub open spec fn out_err(e: ExtractError) -> SpecOut {
    SpecOut { references: Seq::empty(), definitions: Seq::empty(), error: Some(e) }
}

/// `a` followed by `b`; an abort in `a` discards everything after it.
pub open spec fn out_seq(a: SpecOut, b: SpecOut) -> SpecOut {
    if a.error is Some {
        a
    } else {
        SpecOut {
            references: a.references + b.references,
            definitions: a.definitions + b.definitions,
            error: b.error,
        }
    }
}

/// What walking `n` under the namespace stack `stack` (outermost first)
/// collects.
///
/// A class resolves its name; a dynamic class name skips the whole subtree
/// silently. Otherwise the superclass expression is walked in the enclosing
/// scope, the class's fully-qualified name is recorded as a definition, and
/// the body is walked with the name pushed. A module follows the same
/// push/walk protocol but records no definition, and an unresolvable module
/// name aborts. A constant assignment records a definition without opening a
/// scope, and its assigned value is never walked. A constant path records a
/// reference under the current nesting; a dynamic one is dropped silently.
pub open spec fn spec_visit(n: RubyNode, stack: Seq<Seq<char>>) -> SpecOut
    decreases n,
{
    match n {
        RubyNode::Class { name, superclass, body, loc } => {
            match spec_resolve_name(*name) {
                SpecResolution::Resolved(ns) => {
                    let sup = match superclass {
                        Option::Some(s) => spec_visit(*s, stack),
                        Option::None => empty_out(),
                    };
                    let def = ParsedDefinitionView {
                        fully_qualified_name: spec_join(stack.push(ns)),
                        location: loc,
                    };
                    let bod = match body {
                        Option::Some(b) => spec_visit(*b, stack.push(ns)),
                        Option::None => empty_out(),
                    };
                    if sup.error is Some {
                        sup
                    } else {
                        SpecOut {
                            references: sup.references + bod.references,
                            definitions: sup.definitions + seq![def] + bod.definitions,
                            error: bod.error,
                        }
                    }
                },
                SpecResolution::Dynamic => empty_out(),
                SpecResolution::Unsupported => out_err(ExtractError::UnsupportedNameExpression),
            }
        },
        RubyNode::Module { name, body } => {
            match spec_resolve_name(*name) {
                SpecResolution::Resolved(ns) => match body {
                    Option::Some(b) => spec_visit(*b, stack.push(ns)),
                    Option::None => empty_out(),
                },
                SpecResolution::Dynamic => out_err(ExtractError::DynamicModuleName),
                SpecResolution::Unsupported => out_err(ExtractError::UnsupportedNameExpression),
            }
        },
        RubyNode::Casgn { scope, name, loc } => {
            match spec_resolve_scoped(scope, name@) {
                SpecResolution::Resolved(nm) => SpecOut {
                    references: Seq::empty(),
                    definitions: seq![
                        ParsedDefinitionView {
                            fully_qualified_name: spec_join(stack.push(nm)),
                            location: loc,
                        },
                    ],
                    error: None,
                },
                SpecResolution::Dynamic => empty_out(),
                SpecResolution::Unsupported => out_err(ExtractError::UnsupportedNameExpression),
            }
        },
        RubyNode::Const { scope, name, loc } => {
            match spec_resolve_scoped(scope, name@) {
                SpecResolution::Resolved(nm) => SpecOut {
                    references: seq![
                        ParsedReferenceView {
                            name: nm,
                            module_nesting: spec_nesting(stack),
                            location: loc,
                        },
                    ],
                    definitions: Seq::empty(),
                    error: None,
                },
                SpecResolution::Dynamic => empty_out(),
                SpecResolution::Unsupported => out_err(ExtractError::UnsupportedNameExpression),
            }
        },
        RubyNode::Cbase => empty_out(),
        RubyNode::Dynamic { children } => spec_visit_seq(children@, stack),
        RubyNode::Other { children } => spec_visit_seq(children@, stack),
    }
}

/// What walking the nodes in order collects, stopping at the first abort.
pub open spec fn spec_visit_seq(nodes: Seq<RubyNode>, stack: Seq<Seq<char>>) -> SpecOut
    decreases nodes,
{
    if nodes.len() == 0 {
        empty_out()
    } else {
        out_seq(spec_visit(nodes[0], stack), spec_visit_seq(nodes.drop_first(), stack))
    }
}

/// The views of collected references.
pub open spec fn refs_view(s: Seq<ParsedReference>) -> Seq<ParsedReferenceView> {
    s.map_values(|p: ParsedReference| p@)
}

/// The views of collected definitions.
pub open spec fn defs_view(s: Seq<ParsedDefinition>) -> Seq<ParsedDefinitionView> {
    s.map_values(|p: ParsedDefinition| p@)
}

/// The traversal context: the namespace stack and the two output sequences,
/// changed only by push, pop and record operations.
struct Collector {
    references: Vec<ParsedReference>,
    definitions: Vec<ParsedDefinition>,
    current_namespaces: Vec<String>,
}

/// Walks one node, appending what it collects; on an abort the context is
/// abandoned by the caller.
fn visit(node: &RubyNode, c: &mut Collector) -> (r: Result<(), ExtractError>)
    ensures
        ({
            let out = spec_visit(*node, old(c).current_namespaces.deep_view());
            match r {
                Ok(_) => {
                    &&& out.error is None
                    &&& final(c).current_namespaces@ =~= old(c).current_namespaces@
                    &&& refs_view(final(c).references@) =~= refs_view(old(c).references@)
                        + out.references
                    &&& defs_view(final(c).definitions@) =~= defs_view(old(c).definitions@)
                        + out.definitions
                },
                Err(e) => out.error == Some(e),
            }
        }),
    decreases *node,
{
    let ghost stack0: Seq<Seq<char>> = c.current_namespaces.deep_view();
    match node {
        RubyNode::Class { name, superclass, body, loc } => {
            match fetch_const_name(&**name) {
                NameResolution::Resolved(namespace) => {
                    let ghost ns: Seq<char> = namespace@;
                    let ghost refs0 = c.references@;
                    let ghost defs0 = c.definitions@;
                    let ghost sup_out: SpecOut = match superclass {
                        Option::Some(s) => spec_visit(**s, stack0),
                        Option::None => empty_out(),
                    };
                    if let Option::Some(inner) = superclass {
                        match visit(&**inner, c) {
                            Err(e) => {
                                proof {
                                    assert(spec_visit(*node, stack0).error == Some(e));
                                }
                                return Err(e);
                            },
                            Ok(_) => {},
                        }
                    }
                    proof {
                        assert(c.current_namespaces.deep_view() =~= stack0);
                    }
                    let fully_qualified_name = join_onto(&c.current_namespaces, &namespace);
                    let ghost def = ParsedDefinitionView {
                        fully_qualified_name: spec_join(stack0.push(ns)),
                        location: *loc,
                    };
                    proof {
                        assert(fully_qualified_name@ == spec_join(stack0.push(ns)));
                    }
                    c.definitions.push(ParsedDefinition { fully_qualified_name, location: *loc });
                    proof {
                        assert(defs_view(c.definitions@) =~= defs_view(defs0) + sup_out.definitions
                            + seq![def]);
                    }
                    c.current_namespaces.push(namespace);
                    proof {
                        assert(c.current_namespaces.deep_view() =~= stack0.push(ns));
                    }
                    let ghost bod_out: SpecOut = match body {
                        Option::Some(b) => spec_visit(**b, stack0.push(ns)),
                        Option::None => empty_out(),
                    };
                    if let Option::Some(b) = body {
                        match visit(&**b, c) {
                            Err(e) => {
                                proof {
                                    assert(spec_visit(*node, stack0).error == Some(e));
                                }
                                return Err(e);
                            },
                            Ok(_) => {},
                        }
                    }
                    c.current_namespaces.pop();
                    proof {
                        let out = spec_visit(*node, stack0);
                        assert(out.references =~= sup_out.references + bod_out.references);
                        assert(out.definitions =~= sup_out.definitions + seq![def]
                            + bod_out.definitions);
                        assert(c.current_namespaces@ =~= old(c).current_namespaces@);
                        assert(refs_view(c.references@) =~= refs_view(refs0) + sup_out.references
                            + bod_out.references);
                        assert(refs_view(c.references@) =~= refs_view(old(c).references@)
                            + out.references);
                        assert(defs_view(c.definitions@) =~= defs_view(defs0) + sup_out.definitions
                            + seq![def] + bod_out.definitions);
                        assert(defs_view(c.definitions@) =~= defs_view(old(c).definitions@)
                            + out.definitions);
                    }
                    Ok(())
                },
                NameResolution::Dynamic => Ok(()),
                NameResolution::Unsupported => Err(ExtractError::UnsupportedNameExpression),
            }
        },
        RubyNode::Module { name, body } => {
            match fetch_const_name(&**name) {
                NameResolution::Resolved(namespace) => {
                    c.current_namespaces.push(namespace);
                    proof {
                        assert(c.current_namespaces.deep_view() =~= stack0.push(
                            c.current_namespaces@.last()@,
                        ));
                    }
                    if let Option::Some(b) = body {
                        match visit(&**b, c) {
                            Err(e) => {
                                return Err(e);
                            },
                            Ok(_) => {},
                        }
                    }
                    c.current_namespaces.pop();
                    proof {
                        assert(c.current_namespaces@ =~= old(c).current_namespaces@);
                    }
                    Ok(())
                },
                NameResolution::Dynamic => Err(ExtractError::DynamicModuleName),
                NameResolution::Unsupported => Err(ExtractError::UnsupportedNameExpression),
            }
        },
        RubyNode::Casgn { scope, name, loc } => {
            match fetch_scoped_name(scope, name) {
                NameResolution::Resolved(resolved) => {
                    let fully_qualified_name = join_onto(&c.current_namespaces, &resolved);
                    c.definitions.push(
                        ParsedDefinition { fully_qualified_name, location: *loc },
                    );
                    proof {
                        let out = spec_visit(*node, stack0);
                        assert(defs_view(c.definitions@) =~= defs_view(old(c).definitions@)
                            + out.definitions);
                        assert(refs_view(c.references@) =~= refs_view(old(c).references@)
                            + out.references);
                    }
                    Ok(())
                },
                NameResolution::Dynamic => Ok(()),
                NameResolution::Unsupported => Err(ExtractError::UnsupportedNameExpression),
            }
        },
        RubyNode::Const { scope, name, loc } => {
            match fetch_scoped_name(scope, name) {
                NameResolution::Resolved(resolved) => {
                    let module_nesting = calculate_module_nesting(&c.current_namespaces);
                    c.references.push(
                        ParsedReference { name: resolved, module_nesting, location: *loc },
                    );
                    proof {
                        let out = spec_visit(*node, stack0);
                        assert(refs_view(c.references@) =~= refs_view(old(c).references@)
                            + out.references);
                        assert(defs_view(c.definitions@) =~= defs_view(old(c).definitions@)
                            + out.definitions);
                    }
                    Ok(())
                },
                NameResolution::Dynamic => Ok(()),
                NameResolution::Unsupported => Err(ExtractError::UnsupportedNameExpression),
            }
        },
        RubyNode::Cbase => Ok(()),
        RubyNode::Dynamic { children } => {
            proof {
                assert(children@.skip(0) =~= children@);
            }
            visit_from(children, 0, c)
        },
        RubyNode::Other { children } => {
            proof {
                assert(children@.skip(0) =~= children@);
            }
            visit_from(children, 0, c)
        },
    }
}

/// Walks the children from index `i` on, in order.
fn visit_from(nodes: &Vec<RubyNode>, i: usize, c: &mut Collector) -> (r: Result<
    (),
    ExtractError,
>)
    requires
        i <= nodes@.len(),
    ensures
        ({
            let out = spec_visit_seq(nodes@.skip(i as int), old(c).current_namespaces.deep_view());
            match r {
                Ok(_) => {
                    &&& out.error is None
                    &&& final(c).current_namespaces@ =~= old(c).current_namespaces@
                    &&& refs_view(final(c).references@) =~= refs_view(old(c).references@)
                        + out.references
                    &&& defs_view(final(c).definitions@) =~= defs_view(old(c).definitions@)
                        + out.definitions
                },
                Err(e) => out.error == Some(e),
            }
        }),
    decreases nodes@, nodes@.len() - i,
{
    if i == nodes.len() {
        proof {
            assert(nodes@.skip(i as int).len() == 0);
        }
        return Ok(());
    }
    let ghost tail = nodes@.skip(i as int);
    proof {
        assert(tail[0] == nodes@[i as int]);
        assert(tail.drop_first() =~= nodes@.skip(i + 1));
    }
    match visit(&nodes[i], c) {
        Err(e) => Err(e),
        Ok(_) => visit_from(nodes, i + 1, c),
    }
}

/// Appends `last` to the joined parts: the fully-qualified name of `last`
/// under the namespace stack `parts`.
fn join_onto(parts: &Vec<String>, last: &String) -> (r: String)
    ensures
        r@ == spec_join(parts.deep_view().push(last@)),
{
    proof {
        let pv = parts.deep_view().push(last@);
        assert(pv.drop_last() =~= parts.deep_view());
        assert(pv.last() == last@);
    }
    if parts.len() == 0 {
        proof {
            assert(parts.deep_view().push(last@).len() == 1);
        }
        last.clone()
    } else {
        let joined = join_names(parts);
        scoped(joined.as_str(), last.as_str())
    }
}

/// The set of fully-qualified names the file defines.
pub open spec fn def_names(defs: Seq<ParsedDefinitionView>) -> Set<Seq<char>> {
    Set::new(
        |x: Seq<char>|
            exists|i: int|
                0 <= i < defs.len() && (#[trigger] defs[i]).fully_qualified_name == x,
    )
}

/// The resolved range of a raw byte-offset location.
pub open spec fn spec_range(text: Seq<u8>, loc: Location) -> Range {
    Range {
        start_row: crate::location::spec_row(text, loc.begin as int) as usize,
        start_col: crate::location::spec_col(text, loc.begin as int) as usize,
        end_row: crate::location::spec_row(text, loc.end as int) as usize,
        end_col: crate::location::spec_col(text, loc.end as int) as usize,
    }
}

/// The reported reference for a collected one.
pub open spec fn spec_to_reference(text: Seq<u8>, r: ParsedReferenceView) -> ReferenceView {
    ReferenceView {
        name: r.name,
        module_nesting: r.module_nesting,
        location: spec_range(text, r.location),
    }
}

/// Whether a reference survives local-definition filtering: it is kept
/// unless some enclosing nesting level joined with its name is defined in
/// the same file.
pub open spec fn spec_kept(r: ReferenceView, defs: Set<Seq<char>>) -> bool {
    forall|i: int|
        0 <= i < r.module_nesting.len() ==> !defs.contains(
            spec_scoped(#[trigger] r.module_nesting[i], r.name),
        )
}

/// The references reported for one file's traversal output.
pub open spec fn spec_extract(text: Seq<u8>, out: SpecOut) -> Seq<ReferenceView> {
    out.references.map_values(|r: ParsedReferenceView| spec_to_reference(text, r)).filter(
        |r: ReferenceView| spec_kept(r, def_names(out.definitions)),
    )
}

/// The views of reported references.
pub open spec fn references_view(s: Seq<Reference>) -> Seq<ReferenceView> {
    s.map_values(|x: Reference| x@)
}

impl Reference {
    /// The fully-qualified names this reference could resolve to: each
    /// enclosing nesting level joined with the referenced name, innermost
    /// first.
    pub fn possible_fully_qualified_constants(&self) -> (r: Vec<String>)
        ensures
            r.deep_view() == self@.module_nesting.map_values(
                |nesting: Seq<char>| spec_scoped(nesting, self@.name),
            ),
    {
        let mut out: Vec<String> = Vec::new();
        let mut i: usize = 0;
        while i < self.module_nesting.len()
            invariant
                i <= self.module_nesting@.len(),
                out@.len() == i,
                forall|j: int|
                    0 <= j < i ==> out@[j]@ == spec_scoped(
                        self.module_nesting.deep_view()[j],
                        self.name@,
                    ),
            decreases self.module_nesting@.len() - i,
        {
            out.push(scoped(self.module_nesting[i].as_str(), self.name.as_str()));
            i = i + 1;
        }
        proof {
            assert(out.deep_view() =~= self@.module_nesting.map_values(
                |nesting: Seq<char>| spec_scoped(nesting, self@.name),
            ));
        }
        out
    }
}

/// The defined names as owned strings, in definition order.
fn def_name_list(defs: &Vec<ParsedDefinition>) -> (r: Vec<String>)
    ensures
        r@.len() == defs@.len(),
        forall|j: int| 0 <= j < defs@.len() ==> r@[j]@ == defs@[j]@.fully_qualified_name,
{
    let mut names: Vec<String> = Vec::new();
    let mut j: usize = 0;
    while j < defs.len()
        invariant
            j <= defs@.len(),
            names@.len() == j,
            forall|m: int| 0 <= m < j ==> names@[m]@ == defs@[m]@.fully_qualified_name,
        decreases defs@.len() - j,
    {
        names.push(defs[j].fully_qualified_name.clone());
        j = j + 1;
    }
    names
}

/// Whether some name in the list reads `x`.
fn contains_name(names: &Vec<String>, x: &String) -> (r: bool)
    ensures
        r == exists|j: int| 0 <= j < names@.len() && (#[trigger] names@[j])@ == x@,
{
    let mut j: usize = 0;
    while j < names.len()
        invariant
            j <= names@.len(),
            forall|m: int| 0 <= m < j ==> (#[trigger] names@[m])@ != x@,
        decreases names@.len() - j,
    {
        if names[j] == *x {
            return true;
        }
        j = j + 1;
    }
    false
}

proof fn lemma_def_names_match(names: Seq<String>, defs: Seq<ParsedDefinition>, x: Seq<char>)
    requires
        names.len() == defs.len(),
        forall|j: int| 0 <= j < defs.len() ==> (#[trigger] names[j])@ == defs[j]@.fully_qualified_name,
    ensures
        (exists|j: int| 0 <= j < names.len() && (#[trigger] names[j])@ == x) == def_names(
            defs_view(defs),
        ).contains(x),
{
    if exists|j: int| 0 <= j < names.len() && (#[trigger] names[j])@ == x {
        let j = choose|j: int| 0 <= j < names.len() && (#[trigger] names[j])@ == x;
        assert(defs_view(defs)[j].fully_qualified_name == x);
    }
    if def_names(defs_view(defs)).contains(x) {
        let i = choose|i: int|
            0 <= i < defs_view(defs).len() && (#[trigger] defs_view(defs)[i]).fully_qualified_name
                == x;
        assert(names[i]@ == x);
    }
}

/// Whether the reference survives filtering against the file's own defined
/// names.
fn reference_is_kept(def_list: &Vec<String>, r: &Reference) -> (keep: bool)
    ensures
        keep == forall|i: int|
            0 <= i < r@.module_nesting.len() ==> !(exists|j: int|
                0 <= j < def_list@.len() && (#[trigger] def_list@[j])@ == spec_scoped(
                    #[trigger] r@.module_nesting[i],
                    r@.name,
                )),
{
    let candidates = r.possible_fully_qualified_constants();
    proof {
        assert(candidates.deep_view().len() == candidates@.len());
        assert(candidates.deep_view().len() == r@.module_nesting.len());
    }
    let mut i: usize = 0;
    while i < candidates.len()
        invariant
            i <= candidates@.len(),
            candidates@.len() == r@.module_nesting.len(),
            candidates.deep_view() == r@.module_nesting.map_values(
                |nesting: Seq<char>| spec_scoped(nesting, r@.name),
            ),
            forall|m: int|
                0 <= m < i ==> !(exists|j: int|
                    0 <= j < def_list@.len() && (#[trigger] def_list@[j])@ == spec_scoped(
                        #[trigger] r@.module_nesting[m],
                        r@.name,
                    )),
        decreases candidates@.len() - i,
    {
        proof {
            assert(candidates@[i as int]@ == candidates.deep_view()[i as int]);
            assert(candidates@[i as int]@ == spec_scoped(r@.module_nesting[i as int], r@.name));
        }
        if contains_name(def_list, &candidates[i]) {
            return false;
        }
        i = i + 1;
    }
    true
}

/// Clones a vector of strings.
fn clone_string_vec(v: &Vec<String>) -> (r: Vec<String>)
    ensures
        r.deep_view() == v.deep_view(),
        r@.len() == v@.len(),
{
    let mut out: Vec<String> = Vec::new();
    let mut i: usize = 0;
    while i < v.len()
        invariant
            i <= v@.len(),
            out@.len() == i,
            forall|j: int| 0 <= j < i ==> out@[j]@ == v@[j]@,
        decreases v@.len() - i,
    {
        out.push(v[i].clone());
        i = i + 1;
    }
    proof {
        assert(out.deep_view() =~= v.deep_view());
    }
    out
}

/// Extracts one file's references from its syntax tree. The tree is walked
/// as `spec_visit` describes; every surviving reference's byte offsets are
/// resolved to 1-based rows and columns; references that a same-file
/// definition satisfies at some enclosing nesting level are dropped. A file
/// with no tree (a parse failure or empty source) yields no references.
pub fn extract_from_ast(contents: &[u8], ast: &Option<Box<RubyNode>>) -> (r: Result<
    Vec<Reference>,
    ExtractError,
>)
    requires
        contents@.len() < usize::MAX,
        match *ast {
            Option::Some(n) => ({
                let out = spec_visit(*n, Seq::empty());
                out.error is None ==> forall|i: int|
                    0 <= i < out.references.len() ==> (#[trigger] out.references[i]).location.begin
                        <= contents@.len() && out.references[i].location.end <= contents@.len()
            }),
            Option::None => true,
        },
    ensures
        match r {
            Ok(refs) => match *ast {
                Option::Some(n) => ({
                    let out = spec_visit(*n, Seq::empty());
                    out.error is None && references_view(refs@) == spec_extract(contents@, out)
                }),
                Option::None => refs@.len() == 0,
            },
            Err(e) => match *ast {
                Option::Some(n) => spec_visit(*n, Seq::empty()).error == Some(e),
                Option::None => false,
            },
        },
{
    let node = match ast {
        Option::None => {
            return Ok(Vec::new());
        },
        Option::Some(n) => n,
    };
    let ghost out = spec_visit(**node, Seq::empty());
    let mut collector = Collector {
        references: Vec::new(),
        definitions: Vec::new(),
        current_namespaces: Vec::new(),
    };
    proof {
        assert(collector.current_namespaces.deep_view() =~= Seq::<Seq<char>>::empty());
    }
    match visit(&**node, &mut collector) {
        Err(e) => {
            return Err(e);
        },
        Ok(_) => {},
    }
    proof {
        assert(refs_view(collector.references@) =~= out.references);
        assert(defs_view(collector.definitions@) =~= out.definitions);
    }
    let def_list = def_name_list(&collector.definitions);
    let mut mapped: Vec<Reference> = Vec::new();
    let mut i: usize = 0;
    while i < collector.references.len()
        invariant
            i <= collector.references@.len(),
            contents@.len() < usize::MAX,
            out.error is None,
            refs_view(collector.references@) =~= out.references,
            forall|m: int|
                0 <= m < out.references.len() ==> (#[trigger] out.references[m]).location.begin
                    <= contents@.len() && out.references[m].location.end <= contents@.len(),
            mapped@.len() == i,
            forall|j: int|
                0 <= j < i ==> (#[trigger] mapped@[j])@ == spec_to_reference(
                    contents@,
                    out.references[j],
                ),
        decreases collector.references@.len() - i,
    {
        let pr = &collector.references[i];
        proof {
            assert(pr@ == refs_view(collector.references@)[i as int]);
            assert(pr@ == out.references[i as int]);
        }
        let (start_row, start_col) = crate::location::line_col(contents, pr.location.begin);
        let (end_row, end_col) = crate::location::line_col(contents, pr.location.end);
        let reference = Reference {
            name: pr.name.clone(),
            module_nesting: clone_string_vec(&pr.module_nesting),
            location: Range { start_row, start_col, end_row, end_col },
        };
        proof {
            assert(reference@ == spec_to_reference(contents@, out.references[i as int]));
        }
        mapped.push(reference);
        i = i + 1;
    }
    proof {
        assert(references_view(mapped@) =~= out.references.map_values(
            |r: ParsedReferenceView| spec_to_reference(contents@, r),
        ));
    }
    let ghost mappedv = references_view(mapped@);
    let mut result: Vec<Reference> = Vec::new();
    let mut k: usize = 0;
    while k < mapped.len()
        invariant
            k <= mapped@.len(),
            mappedv == references_view(mapped@),
            def_list@.len() == collector.definitions@.len(),
            forall|j: int|
                0 <= j < def_list@.len() ==> (#[trigger] def_list@[j])@
                    == collector.definitions@[j]@.fully_qualified_name,
            defs_view(collector.definitions@) =~= out.definitions,
            references_view(result@) =~= mappedv.take(k as int).filter(
                |r: ReferenceView| spec_kept(r, def_names(out.definitions)),
            ),
        decreases mapped@.len() - k,
    {
        let keep = reference_is_kept(&def_list, &mapped[k]);
        proof {
            assert(mapped@[k as int]@ == mappedv[k as int]);
            assert forall|i2: int| 0 <= i2 < mappedv[k as int].module_nesting.len() implies ((
            exists|j: int|
                0 <= j < def_list@.len() && (#[trigger] def_list@[j])@ == spec_scoped(
                    mappedv[k as int].module_nesting[i2],
                    mappedv[k as int].name,
                )) == def_names(out.definitions).contains(
                spec_scoped(#[trigger] mappedv[k as int].module_nesting[i2], mappedv[k as int].name),
            )) by {
                lemma_def_names_match(
                    def_list@,
                    collector.definitions@,
                    spec_scoped(mappedv[k as int].module_nesting[i2], mappedv[k as int].name),
                );
                assert(def_names(defs_view(collector.definitions@)) =~= def_names(out.definitions));
            }
            assert(keep == spec_kept(mappedv[k as int], def_names(out.definitions)));
        }
        if keep {
            let q = &mapped[k];
            result.push(
                Reference {
                    name: q.name.clone(),
                    module_nesting: clone_string_vec(&q.module_nesting),
                    location: q.location,
                },
            );
        }
        proof {
            reveal(Seq::filter);
            assert(mappedv.take(k + 1).drop_last() =~= mappedv.take(k as int));
            assert(mappedv.take(k + 1).last() == mappedv[k as int]);
            assert(references_view(result@) =~= mappedv.take(k + 1).filter(
                |r: ReferenceView| spec_kept(r, def_names(out.definitions)),
            ));
        }
        k = k + 1;
    }
    proof {
        assert(mappedv.take(mapped@.len() as int) =~= mappedv);
        assert(references_view(result@) =~= spec_extract(contents@, out));
    }
    Ok(result)
}

/// Whether the tree holds any constant-like node: a constant path or a
/// constant assignment.
pub open spec fn spec_has_const_like(n: RubyNode) -> bool
    decreases n,
{
    match n {
        RubyNode::Const { .. } => true,
        RubyNode::Casgn { .. } => true,
        RubyNode::Class { name, superclass, body, .. } => spec_has_const_like(*name) || (match superclass {
            Option::Some(s) => spec_has_const_like(*s),
            Option::None => false,
        }) || (match body {
            Option::Some(b) => spec_has_const_like(*b),
            Option::None => false,
        }),
        RubyNode::Module { name, body } => spec_has_const_like(*name) || (match body {
            Option::Some(b) => spec_has_const_like(*b),
            Option::None => false,
        }),
        RubyNode::Cbase => false,
        RubyNode::Dynamic { children } => spec_seq_has_const_like(children@),
        RubyNode::Other { children } => spec_seq_has_const_like(children@),
    }
}

/// Whether any node in the sequence holds a constant-like node.
pub open spec fn spec_seq_has_const_like(nodes: Seq<RubyNode>) -> bool
    decreases nodes,
{
    nodes.len() > 0 && (spec_has_const_like(nodes[0]) || spec_seq_has_const_like(
        nodes.drop_first(),
    ))
}

/// A source text with no constant-like symbols yields no references:
/// walking a tree without constant or constant-assignment nodes collects
/// none, under any namespace stack.
pub proof fn lemma_no_constants_no_references(n: RubyNode, stack: Seq<Seq<char>>)
    requires
        !spec_has_const_like(n),
    ensures
        spec_visit(n, stack).references.len() == 0,
    decreases n,
{
    match n {
        RubyNode::Class { name, superclass, body, .. } => {
            if spec_resolve_name(*name) is Resolved {
                if let Option::Some(s) = superclass {
                    lemma_no_constants_no_references(*s, stack);
                }
                if let Option::Some(b) = body {
                    match spec_resolve_name(*name) {
                        SpecResolution::Resolved(ns) => {
                            lemma_no_constants_no_references(*b, stack.push(ns));
                        },
                        _ => {},
                    }
                }
            }
        },
        RubyNode::Module { name, body } => {
            if let Option::Some(b) = body {
                match spec_resolve_name(*name) {
                    SpecResolution::Resolved(ns) => {
                        lemma_no_constants_no_references(*b, stack.push(ns));
                    },
                    _ => {},
                }
            }
        },
        RubyNode::Dynamic { children } => {
            lemma_seq_no_constants_no_references(children@, stack);
        },
        RubyNode::Other { children } => {
            lemma_seq_no_constants_no_references(children@, stack);
        },
        _ => {},
    }
}

proof fn lemma_seq_no_constants_no_references(nodes: Seq<RubyNode>, stack: Seq<Seq<char>>)
    requires
        !spec_seq_has_const_like(nodes),
    ensures
        spec_visit_seq(nodes, stack).references.len() == 0,
    decreases nodes,
{
    if nodes.len() > 0 {
        lemma_no_constants_no_references(nodes[0], stack);
        lemma_seq_no_constants_no_references(nodes.drop_first(), stack);
    }
}

/// With no references collected, nothing is reported.
pub proof fn lemma_extract_empty(text: Seq<u8>, out: SpecOut)
    requires
        out.references.len() == 0,
    ensures
        spec_extract(text, out).len() == 0,
{
    reveal(Seq::filter);
    assert(out.references.map_values(|r: ParsedReferenceView| spec_to_reference(text, r)).len()
        == 0);
}

/// A dynamically-scoped constant reference yields no reference and raises no
/// error: walking it collects nothing at all.
pub proof fn lemma_dynamic_reference_dropped(n: RubyNode, stack: Seq<Seq<char>>)
    requires
        match n {
            RubyNode::Const { scope, .. } => match scope {
                Option::Some(s) => spec_resolve_name(*s) is Dynamic,
                Option::None => false,
            },
            _ => false,
        },
    ensures
        spec_visit(n, stack) == empty_out(),
{
}

} // verus!
