//! What the host knows of a program: its source text and, for each node of
//! its syntax tree, the definition that the node resolves to.

use vstd::prelude::*;
use vstd::slice::slice_to_vec;
use crate::span::SourceSpan;
use crate::syntax::{is_identifier, ByteClass, COLON};

verus! {

/// A handle to a node of the host's syntax tree. The rule reads nothing from
/// it; it only hands it back to the resolution context.
#[derive(Clone, Copy, Debug, PartialEq, Eq, Structural)]
pub struct SyntaxNode {
    pub id: usize,
}

/// What the host knows of the definition that an expansion came from.
#[derive(Clone, Debug, PartialEq, Eq)]
pub struct Definition {
    /// Whether the compiler itself knows the definition as one of the
    /// standard library.
    pub standard: bool,
    /// Name of the crate that holds the definition.
    pub krate: Vec<u8>,
    /// Name of the defined item.
    pub item: Vec<u8>,
}

/// A definition as plain values.
pub struct DefinitionView {
    pub standard: bool,
    pub krate: Seq<u8>,
    pub item: Seq<u8>,
}

impl View for Definition {
    type V = DefinitionView;

    open spec fn view(&self) -> DefinitionView {
        DefinitionView { standard: self.standard, krate: self.krate@, item: self.item@ }
    }
}

/// The canonical name of a definition. A definition of the standard library
/// goes by the name of its item alone; any other goes by the name of its
/// crate, `::` and the name of its item, so that it shares its canonical
/// name with no standard definition, however it is spelled.
pub open spec fn canonical_name(definition: DefinitionView) -> Seq<u8> {
    if definition.standard {
        definition.item
    } else {
        definition.krate + seq![COLON, COLON] + definition.item
    }
}

/// The canonical name of a definition outside the standard library is no
/// identifier.
pub proof fn lemma_qualified_name_is_no_identifier(definition: DefinitionView)
    requires
        !definition.standard,
    ensures
        !is_identifier(canonical_name(definition)),
{
    let name = canonical_name(definition);
    let at = definition.krate.len() as int;
    assert(name[at] == COLON);
    assert(!ByteClass::Ident.admits(name[at]));
}

impl Definition {
    /// The canonical name of the definition.
    pub fn canonical_name(&self) -> (name: Vec<u8>)
        ensures
            name@ == canonical_name(self@),
    {
        if self.standard {
            slice_to_vec(self.item.as_slice())
        } else {
            let mut name: Vec<u8> = slice_to_vec(self.krate.as_slice());
            name.push(COLON);
            name.push(COLON);
            name.extend_from_slice(self.item.as_slice());
            assert(name@ =~= canonical_name(self@));
            name
        }
    }

    /// The resolution of a node that is the root of an expansion of this
    /// definition, invoked at `call_site`.
    pub fn expansion(&self, call_site: SourceSpan) -> (resolution: Resolution)
        ensures
            resolution@ == (ResolutionView::Expansion {
                name: canonical_name(self@),
                call_site,
            }),
    {
        Resolution::Expansion { name: self.canonical_name(), call_site }
    }
}

/// What a node resolves to.
#[derive(Clone, Debug, PartialEq, Eq)]
pub enum Resolution {
    /// The host could not tell, or the node is not a call of any kind.
    Unresolved,
    /// A call of an ordinary function with this canonical name.
    Call { name: Vec<u8> },
    /// The root of the expansion of a macro with this canonical name, invoked
    /// at `call_site`.
    Expansion { name: Vec<u8>, call_site: SourceSpan },
}

/// A resolution as plain values.
pub enum ResolutionView {
    Unresolved,
    Call { name: Seq<u8> },
    Expansion { name: Seq<u8>, call_site: SourceSpan },
}

impl View for Resolution {
    type V = ResolutionView;

    open spec fn view(&self) -> ResolutionView {
        match self {
            Resolution::Unresolved => ResolutionView::Unresolved,
            Resolution::Call { name } => ResolutionView::Call { name: name@ },
            Resolution::Expansion { name, call_site } => ResolutionView::Expansion {
                name: name@,
                call_site: *call_site,
            },
        }
    }
}

/// The read-only context in which nodes are resolved: the source buffer and
/// one resolution per node, in the order in which the host visits the nodes.
#[derive(Clone, Debug, PartialEq, Eq)]
pub struct ResolutionContext {
    pub source: Vec<u8>,
    pub table: Vec<Resolution>,
}

/// A resolution context as plain values.
pub struct ProgramView {
    pub source: Seq<u8>,
    pub table: Seq<ResolutionView>,
}

impl ProgramView {
    /// What `node` resolves to; a node that the table does not hold is
    /// unresolved.
    pub open spec fn resolve(self, node: SyntaxNode) -> ResolutionView {
        if node.id < self.table.len() {
            self.table[node.id as int]
        } else {
            ResolutionView::Unresolved
        }
    }

    /// The handles of all nodes, in visiting order.
    pub open spec fn nodes(self) -> Seq<SyntaxNode> {
        Seq::new(self.table.len(), |i: int| SyntaxNode { id: i as usize })
    }
}

impl View for ResolutionContext {
    type V = ProgramView;

    open spec fn view(&self) -> ProgramView {
        ProgramView {
            source: self.source@,
            table: self.table@.map_values(|r: Resolution| r@),
        }
    }
}

impl ResolutionContext {
    /// A context for `source` with no nodes yet.
    pub fn new(source: Vec<u8>) -> (context: ResolutionContext)
        ensures
            context@.source == source@,
            context@.table == Seq::<ResolutionView>::empty(),
    {
        let context = ResolutionContext { source, table: Vec::new() };
        assert(context@.table =~= Seq::<ResolutionView>::empty());
        context
    }

    /// Records the resolution of the next node and gives the node's handle.
    pub fn add(&mut self, resolution: Resolution) -> (node: SyntaxNode)
        ensures
            node.id == old(self)@.table.len(),
            final(self)@.source == old(self)@.source,
            final(self)@.table == old(self)@.table.push(resolution@),
            final(self)@.resolve(node) == resolution@,
    {
        let node = SyntaxNode { id: self.table.len() };
        let ghost pushed = resolution@;
        self.table.push(resolution);
        assert(self@.table =~= old(self)@.table.push(pushed));
        node
    }

    /// What `node` resolves to; `None` for a node that the table does not
    /// hold.
    pub fn resolve(&self, node: SyntaxNode) -> (found: Option<&Resolution>)
        ensures
            found is Some <==> node.id < self@.table.len(),
            found matches Some(r) ==> r@ == self@.resolve(node),
            found is None ==> self@.resolve(node) == ResolutionView::Unresolved,
    {
        if node.id < self.table.len() {
            Some(&self.table[node.id])
        } else {
            None
        }
    }

    /// The handles of all nodes, in visiting order.
    pub fn nodes(&self) -> (all: Vec<SyntaxNode>)
        ensures
            all@ == self@.nodes(),
    {
        let mut all: Vec<SyntaxNode> = Vec::new();
        let mut id: usize = 0;
        while id < self.table.len()
            invariant
                id <= self.table.len(),
                all@.len() == id,
                forall|i: int| 0 <= i < id ==> (#[trigger] all@[i]).id == i,
            decreases self.table.len() - id,
        {
            all.push(SyntaxNode { id });
            id += 1;
        }
        assert(all@ =~= self@.nodes());
        all
    }
}

} // verus!
