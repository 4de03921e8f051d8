//! What a pass hands back: the queue of planned mutations, the findings that
//! did not stop it, and the index of the next node to create.
//!
//! Node indices are machine words. A queue that has used the last of them is
//! exhausted: it takes no further creation, and says so.

use vstd::prelude::*;
use crate::scene::{Mutation, MutationView, NodeKind, Placement};

verus! {

/// Something a pass found and went on from.
#[derive(Clone, Debug, PartialEq, Eq)]
pub enum Diagnostic {
    /// The value of the property `key` names no variant of its enumeration.
    UnknownVariant { key: String, text: String },
    /// The value of the property `key` opens with a bracket and does not
    /// close with one, or the other way round.
    UnbalancedValue { key: String },
    /// The property `key` asks to remove a record of a type that is not
    /// registered.
    UnknownRemoval { key: String },
    /// A tileset has no texture.
    MissingTexture { tileset_index: usize },
    /// A layer is of a kind that is not materialised.
    UnsupportedLayer { layer_index: usize },
}

/// A finding as contracts see it.
pub enum DiagnosticView {
    UnknownVariant { key: Seq<char>, text: Seq<char> },
    UnbalancedValue { key: Seq<char> },
    UnknownRemoval { key: Seq<char> },
    MissingTexture { tileset_index: usize },
    UnsupportedLayer { layer_index: usize },
}

impl View for Diagnostic {
    type V = DiagnosticView;

    open spec fn view(&self) -> DiagnosticView {
        match *self {
            Diagnostic::UnknownVariant { key, text } => DiagnosticView::UnknownVariant { key: key@, text: text@ },
            Diagnostic::UnbalancedValue { key } => DiagnosticView::UnbalancedValue { key: key@ },
            Diagnostic::UnknownRemoval { key } => DiagnosticView::UnknownRemoval { key: key@ },
            Diagnostic::MissingTexture { tileset_index } => DiagnosticView::MissingTexture { tileset_index },
            Diagnostic::UnsupportedLayer { layer_index } => DiagnosticView::UnsupportedLayer { layer_index },
        }
    }
}

/// The mutations planned so far, the findings so far, and the index that the
/// next created node gets.
#[derive(Clone, Debug, PartialEq, Eq)]
pub struct Commands {
    pub mutations: Vec<Mutation>,
    pub diagnostics: Vec<Diagnostic>,
    pub next_node: usize,
    /// Whether a creation was asked for when no index was left.
    pub exhausted: bool,
}

/// [`Commands`] as contracts see them.
pub struct CommandsView {
    pub mutations: Seq<MutationView>,
    pub diagnostics: Seq<DiagnosticView>,
    pub next_node: usize,
    pub exhausted: bool,
}

impl CommandsView {
    /// With one more mutation at the end of the queue.
    pub open spec fn queued(self, m: MutationView) -> CommandsView {
        CommandsView { mutations: self.mutations.push(m), ..self }
    }

    /// With one more finding.
    pub open spec fn reported(self, d: DiagnosticView) -> CommandsView {
        CommandsView { diagnostics: self.diagnostics.push(d), ..self }
    }

    /// With the creation of the next node queued; exhausted where no index
    /// is left for it.
    pub open spec fn spawned(
        self,
        parent: Option<usize>,
        kind: NodeKind,
        name: Seq<char>,
        placement: Placement,
    ) -> CommandsView {
        if self.next_node < usize::MAX {
            CommandsView {
                mutations: self.mutations.push(
                    MutationView::CreateNode { node: self.next_node, parent, kind, name, placement },
                ),
                next_node: (self.next_node + 1) as usize,
                ..self
            }
        } else {
            CommandsView { exhausted: true, ..self }
        }
    }
}

impl View for Commands {
    type V = CommandsView;

    open spec fn view(&self) -> CommandsView {
        CommandsView {
            mutations: Seq::new(self.mutations@.len(), |i: int| self.mutations@[i]@),
            diagnostics: Seq::new(self.diagnostics@.len(), |i: int| self.diagnostics@[i]@),
            next_node: self.next_node,
            exhausted: self.exhausted,
        }
    }
}

impl Commands {
    /// An empty queue for a scene whose next free index is `next_node`.
    pub fn new(next_node: usize) -> (r: Commands)
        ensures
            r@ == (CommandsView {
                mutations: Seq::empty(),
                diagnostics: Seq::empty(),
                next_node,
                exhausted: false,
            }),
    {
        let r = Commands { mutations: Vec::new(), diagnostics: Vec::new(), next_node, exhausted: false };
        assert(r@.mutations =~= Seq::empty());
        assert(r@.diagnostics =~= Seq::empty());
        r
    }

    /// Puts a mutation at the end of the queue.
    pub fn queue(&mut self, mutation: Mutation)
        ensures
            final(self)@ == old(self)@.queued(mutation@),
    {
        self.mutations.push(mutation);
        assert(self@.mutations =~= old(self)@.mutations.push(mutation@));
        assert(self@.diagnostics =~= old(self)@.diagnostics);
    }

    /// Records a finding.
    pub fn report(&mut self, diagnostic: Diagnostic)
        ensures
            final(self)@ == old(self)@.reported(diagnostic@),
    {
        self.diagnostics.push(diagnostic);
        assert(self@.diagnostics =~= old(self)@.diagnostics.push(diagnostic@));
        assert(self@.mutations =~= old(self)@.mutations);
    }

    /// Queues the creation of a node and returns its index. Where no index
    /// is left, nothing is queued and the queue is exhausted.
    pub fn spawn(&mut self, parent: Option<usize>, kind: NodeKind, name: String, placement: Placement) -> (node:
        usize)
        ensures
            node == old(self).next_node,
            final(self)@ == old(self)@.spawned(parent, kind, name@, placement),
    {
        let node = self.next_node;
        if node < usize::MAX {
            self.mutations.push(Mutation::CreateNode { node, parent, kind, name, placement });
            self.next_node = node + 1;
        } else {
            self.exhausted = true;
        }
        assert(self@.mutations =~= old(self)@.spawned(parent, kind, name@, placement).mutations);
        assert(self@.diagnostics =~= old(self)@.diagnostics);
        node
    }
}

} // verus!
