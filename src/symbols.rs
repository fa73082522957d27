//! Symbols: the declaration records that the index holds.
use vstd::prelude::*;

use crate::base::FileId;
use crate::names::opt_view;

verus! {

/// The kind of a declaration: a closed set of definition kinds, usage kinds
/// and a few others.
#[derive(Copy, Clone, PartialEq, Eq, Hash, Debug, Structural)]
pub enum SymbolKind {
    Package,
    PartDef,
    ItemDef,
    ActionDef,
    PortDef,
    AttributeDef,
    ConnectionDef,
    InterfaceDef,
    AllocationDef,
    RequirementDef,
    ConstraintDef,
    StateDef,
    CalculationDef,
    UseCaseDef,
    AnalysisCaseDef,
    ConcernDef,
    ViewDef,
    ViewpointDef,
    RenderingDef,
    EnumerationDef,
    PartUsage,
    ItemUsage,
    ActionUsage,
    PortUsage,
    AttributeUsage,
    ConnectionUsage,
    InterfaceUsage,
    AllocationUsage,
    RequirementUsage,
    ConstraintUsage,
    StateUsage,
    CalculationUsage,
    ReferenceUsage,
    OccurrenceUsage,
    FlowUsage,
    Alias,
    Import,
    Comment,
    Dependency,
    Other,
}

/// Whether a kind introduces a reusable type-like element (packages count).
pub open spec fn is_definition_kind(k: SymbolKind) -> bool {
    match k {
        SymbolKind::Package | SymbolKind::PartDef | SymbolKind::ItemDef | SymbolKind::ActionDef
        | SymbolKind::PortDef | SymbolKind::AttributeDef | SymbolKind::ConnectionDef
        | SymbolKind::InterfaceDef | SymbolKind::AllocationDef | SymbolKind::RequirementDef
        | SymbolKind::ConstraintDef | SymbolKind::StateDef | SymbolKind::CalculationDef
        | SymbolKind::UseCaseDef | SymbolKind::AnalysisCaseDef | SymbolKind::ConcernDef
        | SymbolKind::ViewDef | SymbolKind::ViewpointDef | SymbolKind::RenderingDef
        | SymbolKind::EnumerationDef => true,
        _ => false,
    }
}

/// Whether a kind is an occurrence of a definition inside a structure.
pub open spec fn is_usage_kind(k: SymbolKind) -> bool {
    match k {
        SymbolKind::PartUsage | SymbolKind::ItemUsage | SymbolKind::ActionUsage
        | SymbolKind::PortUsage | SymbolKind::AttributeUsage | SymbolKind::ConnectionUsage
        | SymbolKind::InterfaceUsage | SymbolKind::AllocationUsage
        | SymbolKind::RequirementUsage | SymbolKind::ConstraintUsage | SymbolKind::StateUsage
        | SymbolKind::CalculationUsage | SymbolKind::ReferenceUsage
        | SymbolKind::OccurrenceUsage | SymbolKind::FlowUsage => true,
        _ => false,
    }
}

/// The definition kind that a usage kind instantiates, where there is one.
pub open spec fn definition_kind_of(k: SymbolKind) -> Option<SymbolKind> {
    match k {
        SymbolKind::PartUsage => Some(SymbolKind::PartDef),
        SymbolKind::ItemUsage => Some(SymbolKind::ItemDef),
        SymbolKind::ActionUsage => Some(SymbolKind::ActionDef),
        SymbolKind::PortUsage => Some(SymbolKind::PortDef),
        SymbolKind::AttributeUsage => Some(SymbolKind::AttributeDef),
        SymbolKind::ConnectionUsage => Some(SymbolKind::ConnectionDef),
        SymbolKind::InterfaceUsage => Some(SymbolKind::InterfaceDef),
        SymbolKind::AllocationUsage => Some(SymbolKind::AllocationDef),
        SymbolKind::RequirementUsage => Some(SymbolKind::RequirementDef),
        SymbolKind::ConstraintUsage => Some(SymbolKind::ConstraintDef),
        SymbolKind::StateUsage => Some(SymbolKind::StateDef),
        SymbolKind::CalculationUsage => Some(SymbolKind::CalculationDef),
        _ => None,
    }
}

/// Definitions and usages are disjoint, and a usage maps to a definition kind.
pub proof fn lemma_kinds_partition(k: SymbolKind)
    ensures
        !(is_definition_kind(k) && is_usage_kind(k)),
        definition_kind_of(k) matches Some(d) ==> is_usage_kind(k) && is_definition_kind(d),
{
}

impl SymbolKind {
    /// Whether this is a definition kind.
    pub fn is_definition(&self) -> (r: bool)
        ensures
            r == is_definition_kind(*self),
    {
        match self {
            SymbolKind::Package | SymbolKind::PartDef | SymbolKind::ItemDef
            | SymbolKind::ActionDef | SymbolKind::PortDef | SymbolKind::AttributeDef
            | SymbolKind::ConnectionDef | SymbolKind::InterfaceDef | SymbolKind::AllocationDef
            | SymbolKind::RequirementDef | SymbolKind::ConstraintDef | SymbolKind::StateDef
            | SymbolKind::CalculationDef | SymbolKind::UseCaseDef | SymbolKind::AnalysisCaseDef
            | SymbolKind::ConcernDef | SymbolKind::ViewDef | SymbolKind::ViewpointDef
            | SymbolKind::RenderingDef | SymbolKind::EnumerationDef => true,
            _ => false,
        }
    }

    /// Whether this is a usage kind.
    pub fn is_usage(&self) -> (r: bool)
        ensures
            r == is_usage_kind(*self),
    {
        match self {
            SymbolKind::PartUsage | SymbolKind::ItemUsage | SymbolKind::ActionUsage
            | SymbolKind::PortUsage | SymbolKind::AttributeUsage | SymbolKind::ConnectionUsage
            | SymbolKind::InterfaceUsage | SymbolKind::AllocationUsage
            | SymbolKind::RequirementUsage | SymbolKind::ConstraintUsage
            | SymbolKind::StateUsage | SymbolKind::CalculationUsage
            | SymbolKind::ReferenceUsage | SymbolKind::OccurrenceUsage
            | SymbolKind::FlowUsage => true,
            _ => false,
        }
    }

    /// The definition kind that this usage kind instantiates.
    pub fn to_definition_kind(&self) -> (r: Option<SymbolKind>)
        ensures
            r == definition_kind_of(*self),
    {
        match self {
            SymbolKind::PartUsage => Some(SymbolKind::PartDef),
            SymbolKind::ItemUsage => Some(SymbolKind::ItemDef),
            SymbolKind::ActionUsage => Some(SymbolKind::ActionDef),
            SymbolKind::PortUsage => Some(SymbolKind::PortDef),
            SymbolKind::AttributeUsage => Some(SymbolKind::AttributeDef),
            SymbolKind::ConnectionUsage => Some(SymbolKind::ConnectionDef),
            SymbolKind::InterfaceUsage => Some(SymbolKind::InterfaceDef),
            SymbolKind::AllocationUsage => Some(SymbolKind::AllocationDef),
            SymbolKind::RequirementUsage => Some(SymbolKind::RequirementDef),
            SymbolKind::ConstraintUsage => Some(SymbolKind::ConstraintDef),
            SymbolKind::StateUsage => Some(SymbolKind::StateDef),
            SymbolKind::CalculationUsage => Some(SymbolKind::CalculationDef),
            _ => None,
        }
    }

    /// A human-readable label for the kind, as written in the language.
    pub fn display(&self) -> (r: &'static str)
        ensures
            r@.len() > 0,
    {
        let r = match self {
            SymbolKind::Package => "package",
            SymbolKind::PartDef => "part def",
            SymbolKind::ItemDef => "item def",
            SymbolKind::ActionDef => "action def",
            SymbolKind::PortDef => "port def",
            SymbolKind::AttributeDef => "attribute def",
            SymbolKind::ConnectionDef => "connection def",
            SymbolKind::InterfaceDef => "interface def",
            SymbolKind::AllocationDef => "allocation def",
            SymbolKind::RequirementDef => "requirement def",
            SymbolKind::ConstraintDef => "constraint def",
            SymbolKind::StateDef => "state def",
            SymbolKind::CalculationDef => "calc def",
            SymbolKind::UseCaseDef => "use case def",
            SymbolKind::AnalysisCaseDef => "analysis case def",
            SymbolKind::ConcernDef => "concern def",
            SymbolKind::ViewDef => "view def",
            SymbolKind::ViewpointDef => "viewpoint def",
            SymbolKind::RenderingDef => "rendering def",
            SymbolKind::EnumerationDef => "enum def",
            SymbolKind::PartUsage => "part",
            SymbolKind::ItemUsage => "item",
            SymbolKind::ActionUsage => "action",
            SymbolKind::PortUsage => "port",
            SymbolKind::AttributeUsage => "attribute",
            SymbolKind::ConnectionUsage => "connection",
            SymbolKind::InterfaceUsage => "interface",
            SymbolKind::AllocationUsage => "allocation",
            SymbolKind::RequirementUsage => "requirement",
            SymbolKind::ConstraintUsage => "constraint",
            SymbolKind::StateUsage => "state",
            SymbolKind::CalculationUsage => "calc",
            SymbolKind::ReferenceUsage => "ref",
            SymbolKind::OccurrenceUsage => "occurrence",
            SymbolKind::FlowUsage => "flow",
            SymbolKind::Alias => "alias",
            SymbolKind::Import => "import",
            SymbolKind::Comment => "comment",
            SymbolKind::Dependency => "dependency",
            SymbolKind::Other => "element",
        };
        proof {
            reveal_strlit("package");
            reveal_strlit("part def");
            reveal_strlit("item def");
            reveal_strlit("action def");
            reveal_strlit("port def");
            reveal_strlit("attribute def");
            reveal_strlit("connection def");
            reveal_strlit("interface def");
            reveal_strlit("allocation def");
            reveal_strlit("requirement def");
            reveal_strlit("constraint def");
            reveal_strlit("state def");
            reveal_strlit("calc def");
            reveal_strlit("use case def");
            reveal_strlit("analysis case def");
            reveal_strlit("concern def");
            reveal_strlit("view def");
            reveal_strlit("viewpoint def");
            reveal_strlit("rendering def");
            reveal_strlit("enum def");
            reveal_strlit("part");
            reveal_strlit("item");
            reveal_strlit("action");
            reveal_strlit("port");
            reveal_strlit("attribute");
            reveal_strlit("connection");
            reveal_strlit("interface");
            reveal_strlit("allocation");
            reveal_strlit("requirement");
            reveal_strlit("constraint");
            reveal_strlit("state");
            reveal_strlit("calc");
            reveal_strlit("ref");
            reveal_strlit("occurrence");
            reveal_strlit("flow");
            reveal_strlit("alias");
            reveal_strlit("import");
            reveal_strlit("comment");
            reveal_strlit("dependency");
            reveal_strlit("element");
        }
        r
    }
}

/// A reference to another symbol by name, with its span and, once the
/// resolution pass has run, the qualified name it resolved to.
#[derive(Clone, Debug)]
pub struct TypeRef {
    pub target: String,
    pub resolved_target: Option<String>,
    pub start_line: u32,
    pub start_col: u32,
    pub end_line: u32,
    pub end_col: u32,
}

/// The mathematical value of a [`TypeRef`].
pub struct TypeRefView {
    pub target: Seq<char>,
    pub resolved_target: Option<Seq<char>>,
    pub start_line: u32,
    pub start_col: u32,
    pub end_line: u32,
    pub end_col: u32,
}

impl View for TypeRef {
    type V = TypeRefView;

    open spec fn view(&self) -> TypeRefView {
        TypeRefView {
            target: self.target@,
            resolved_target: opt_view(self.resolved_target),
            start_line: self.start_line,
            start_col: self.start_col,
            end_line: self.end_line,
            end_col: self.end_col,
        }
    }
}

impl TypeRef {
    /// A reference to `target`, not yet resolved.
    pub fn new(target: &str, start_line: u32, start_col: u32, end_line: u32, end_col: u32) -> (r:
        TypeRef)
        ensures
            r@ == (TypeRefView {
                target: target@,
                resolved_target: None,
                start_line,
                start_col,
                end_line,
                end_col,
            }),
    {
        TypeRef {
            target: target.to_owned(),
            resolved_target: None,
            start_line,
            start_col,
            end_line,
            end_col,
        }
    }

    /// A copy with the same value.
    pub fn duplicate(&self) -> (r: TypeRef)
        ensures
            r@ == self@,
    {
        TypeRef {
            target: self.target.clone(),
            resolved_target: match &self.resolved_target {
                Some(t) => Some(t.clone()),
                None => None,
            },
            start_line: self.start_line,
            start_col: self.start_col,
            end_line: self.end_line,
            end_col: self.end_col,
        }
    }
}

/// The views of a sequence of references.
pub open spec fn refs_view(v: Seq<TypeRef>) -> Seq<TypeRefView> {
    v.map_values(|r: TypeRef| r@)
}

/// A dotted access chain `a.b.c`, one reference per part.
#[derive(Clone, Debug)]
pub struct TypeRefChain {
    pub parts: Vec<TypeRef>,
}

/// A recorded reference: a plain name or an access chain.
#[derive(Clone, Debug)]
pub enum TypeRefKind {
    Simple(TypeRef),
    Chain(TypeRefChain),
}

/// The mathematical value of a [`TypeRefKind`].
pub enum TypeRefKindView {
    Simple(TypeRefView),
    Chain(Seq<TypeRefView>),
}

impl View for TypeRefKind {
    type V = TypeRefKindView;

    open spec fn view(&self) -> TypeRefKindView {
        match self {
            TypeRefKind::Simple(r) => TypeRefKindView::Simple(r@),
            TypeRefKind::Chain(c) => TypeRefKindView::Chain(refs_view(c.parts@)),
        }
    }
}

/// The references that a recorded reference is made of, in order.
pub open spec fn parts_of(k: TypeRefKindView) -> Seq<TypeRefView> {
    match k {
        TypeRefKindView::Simple(r) => seq![r],
        TypeRefKindView::Chain(p) => p,
    }
}

fn duplicate_refs(v: &Vec<TypeRef>) -> (r: Vec<TypeRef>)
    ensures
        refs_view(r@) == refs_view(v@),
{
    let mut r: Vec<TypeRef> = Vec::new();
    let mut i: usize = 0;
    while i < v.len()
        invariant
            i <= v@.len(),
            r@.len() == i,
            forall|j: int| 0 <= j < i ==> r@[j]@ == v@[j]@,
        decreases v@.len() - i,
    {
        r.push(v[i].duplicate());
        i = i + 1;
    }
    assert(refs_view(r@) =~= refs_view(v@));
    r
}

impl TypeRefKind {
    /// The references this is made of, in order.
    pub fn as_refs(&self) -> (r: Vec<&TypeRef>)
        ensures
            r@.len() == parts_of(self@).len(),
            forall|i: int| 0 <= i < r@.len() ==> r@[i]@ == parts_of(self@)[i],
    {
        match self {
            TypeRefKind::Simple(t) => {
                let mut r: Vec<&TypeRef> = Vec::new();
                r.push(t);
                r
            },
            TypeRefKind::Chain(c) => {
                let mut r: Vec<&TypeRef> = Vec::new();
                let mut i: usize = 0;
                while i < c.parts.len()
                    invariant
                        i <= c.parts@.len(),
                        r@.len() == i,
                        forall|j: int| 0 <= j < i ==> r@[j]@ == c.parts@[j]@,
                    decreases c.parts@.len() - i,
                {
                    r.push(&c.parts[i]);
                    i = i + 1;
                }
                r
            },
        }
    }

    /// A copy with the same value.
    pub fn duplicate(&self) -> (r: TypeRefKind)
        ensures
            r@ == self@,
    {
        match self {
            TypeRefKind::Simple(t) => TypeRefKind::Simple(t.duplicate()),
            TypeRefKind::Chain(c) => TypeRefKind::Chain(TypeRefChain { parts: duplicate_refs(&c.parts) }),
        }
    }
}

/// A declaration record.
#[derive(Clone, Debug)]
pub struct HirSymbol {
    /// The simple name.
    pub name: String,
    /// An optional short alias name.
    pub short_name: Option<String>,
    /// The `::`-delimited path from the model root.
    pub qualified_name: String,
    pub kind: SymbolKind,
    pub file: FileId,
    pub start_line: u32,
    pub start_col: u32,
    pub end_line: u32,
    pub end_col: u32,
    pub doc: Option<String>,
    /// Unresolved names of supertypes (specialization, typing).
    pub supertypes: Vec<String>,
    pub type_refs: Vec<TypeRefKind>,
    pub is_public: bool,
}

/// The mathematical value of a [`HirSymbol`].
pub struct SymbolView {
    pub name: Seq<char>,
    pub short_name: Option<Seq<char>>,
    pub qualified_name: Seq<char>,
    pub kind: SymbolKind,
    pub file: FileId,
    pub start_line: u32,
    pub start_col: u32,
    pub end_line: u32,
    pub end_col: u32,
    pub doc: Option<Seq<char>>,
    pub supertypes: Seq<Seq<char>>,
    pub type_refs: Seq<TypeRefKindView>,
    pub is_public: bool,
}

/// The views of a sequence of strings.
pub open spec fn strings_view(v: Seq<String>) -> Seq<Seq<char>> {
    v.map_values(|s: String| s@)
}

/// The views of a sequence of recorded references.
pub open spec fn kinds_view(v: Seq<TypeRefKind>) -> Seq<TypeRefKindView> {
    v.map_values(|k: TypeRefKind| k@)
}

impl View for HirSymbol {
    type V = SymbolView;

    open spec fn view(&self) -> SymbolView {
        SymbolView {
            name: self.name@,
            short_name: opt_view(self.short_name),
            qualified_name: self.qualified_name@,
            kind: self.kind,
            file: self.file,
            start_line: self.start_line,
            start_col: self.start_col,
            end_line: self.end_line,
            end_col: self.end_col,
            doc: opt_view(self.doc),
            supertypes: strings_view(self.supertypes@),
            type_refs: kinds_view(self.type_refs@),
            is_public: self.is_public,
        }
    }
}

/// A copy of a list of strings.
pub fn duplicate_strings(v: &Vec<String>) -> (r: Vec<String>)
    ensures
        strings_view(r@) == strings_view(v@),
{
    let mut r: Vec<String> = Vec::new();
    let mut i: usize = 0;
    while i < v.len()
        invariant
            i <= v@.len(),
            r@.len() == i,
            forall|j: int| 0 <= j < i ==> r@[j]@ == v@[j]@,
        decreases v@.len() - i,
    {
        r.push(v[i].clone());
        i = i + 1;
    }
    assert(strings_view(r@) =~= strings_view(v@));
    r
}

fn duplicate_kinds(v: &Vec<TypeRefKind>) -> (r: Vec<TypeRefKind>)
    ensures
        kinds_view(r@) == kinds_view(v@),
{
    let mut r: Vec<TypeRefKind> = Vec::new();
    let mut i: usize = 0;
    while i < v.len()
        invariant
            i <= v@.len(),
            r@.len() == i,
            forall|j: int| 0 <= j < i ==> r@[j]@ == v@[j]@,
        decreases v@.len() - i,
    {
        r.push(v[i].duplicate());
        i = i + 1;
    }
    assert(kinds_view(r@) =~= kinds_view(v@));
    r
}

fn duplicate_opt(o: &Option<String>) -> (r: Option<String>)
    ensures
        opt_view(r) == opt_view(*o),
{
    match o {
        Some(s) => Some(s.clone()),
        None => None,
    }
}

impl HirSymbol {
    /// A symbol with the given names, kind and file, an empty span and no
    /// short name, documentation, supertypes or references; private.
    pub fn new(name: &str, qualified_name: &str, kind: SymbolKind, file: FileId) -> (r: HirSymbol)
        ensures
            r@.name == name@,
            r@.qualified_name == qualified_name@,
            r@.kind == kind,
            r@.file == file,
            r@.short_name is None,
            r@.doc is None,
            r@.supertypes.len() == 0,
            r@.type_refs.len() == 0,
            r@.start_line == 0 && r@.start_col == 0 && r@.end_line == 0 && r@.end_col == 0,
            !r@.is_public,
    {
        let r = HirSymbol {
            name: name.to_owned(),
            short_name: None,
            qualified_name: qualified_name.to_owned(),
            kind,
            file,
            start_line: 0,
            start_col: 0,
            end_line: 0,
            end_col: 0,
            doc: None,
            supertypes: Vec::new(),
            type_refs: Vec::new(),
            is_public: false,
        };
        assert(r@.supertypes =~= Seq::empty());
        assert(r@.type_refs =~= Seq::empty());
        r
    }

    /// A copy with the same value.
    pub fn duplicate(&self) -> (r: HirSymbol)
        ensures
            r@ == self@,
    {
        HirSymbol {
            name: self.name.clone(),
            short_name: duplicate_opt(&self.short_name),
            qualified_name: self.qualified_name.clone(),
            kind: self.kind,
            file: self.file,
            start_line: self.start_line,
            start_col: self.start_col,
            end_line: self.end_line,
            end_col: self.end_col,
            doc: duplicate_opt(&self.doc),
            supertypes: duplicate_strings(&self.supertypes),
            type_refs: duplicate_kinds(&self.type_refs),
            is_public: self.is_public,
        }
    }
}

} // verus!
