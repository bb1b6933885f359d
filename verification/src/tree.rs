//! The syntax tree and its canonical text.

use vstd::prelude::*;

verus! {

/// The mathematical syntax tree, which contracts speak of: the view of an `S`.
pub ghost enum Tree {
    /// A leaf holding one character of the source.
    Atom(char),
    /// An operator over its operands, in the order of the source.
    Cons(char, Seq<Tree>),
}

/// The syntax tree as the parser hands it out.
#[derive(Debug, PartialEq, Eq)]
pub enum S {
    /// A leaf: one letter or digit of the source.
    Atom(char),
    /// An operator and its operands, in the order of the source: one for a
    /// prefix or postfix operator, two for an infix operator or an index,
    /// three for a conditional.
    Cons(char, Vec<S>),
}

impl View for S {
    type V = Tree;

    open spec fn view(&self) -> Tree
        decreases self,
    {
        match self {
            S::Atom(c) => Tree::Atom(*c),
            S::Cons(op, kids) => Tree::Cons(*op, views(kids@)),
        }
    }
}

/// The mathematical trees of `kids`, in order.
pub open spec fn views(kids: Seq<S>) -> Seq<Tree>
    decreases kids,
{
    if kids.len() == 0 {
        Seq::empty()
    } else {
        views(kids.drop_last()).push(kids.last()@)
    }
}

/// `views` maps element by element.
pub proof fn lemma_views(kids: Seq<S>)
    ensures
        views(kids).len() == kids.len(),
        forall|i: int| 0 <= i < kids.len() ==> views(kids)[i] == (#[trigger] kids[i])@,
    decreases kids.len(),
{
    if kids.len() > 0 {
        let front = kids.drop_last();
        lemma_views(front);
        assert(views(kids) == views(front).push(kids.last()@));
        assert forall|i: int| 0 <= i < kids.len() implies views(kids)[i] == (
        #[trigger] kids[i])@ by {
            if i < front.len() {
                assert(front[i] == kids[i]);
            }
        }
    }
}

impl Tree {
    /// The canonical text of a tree: a leaf is its character; an operator node is
    /// `(`, the operator, a space, the operands' texts separated by single spaces, `)`.
    pub open spec fn render(self) -> Seq<char>
        decreases self, 0nat,
    {
        match self {
            Tree::Atom(c) => seq![c],
            Tree::Cons(op, kids) => seq!['(', op, ' '] + render_joined(kids) + seq![')'],
        }
    }
}

/// The texts of `kids`, in order, with one space between neighbours.
pub open spec fn render_joined(kids: Seq<Tree>) -> Seq<char>
    decreases kids, 1nat,
{
    if kids.len() == 0 {
        Seq::empty()
    } else if kids.len() == 1 {
        kids[0].render()
    } else {
        render_joined(kids.drop_last()) + seq![' '] + kids.last().render()
    }
}

/// Taken on trust from the standard library: `String::push` appends the given
/// character to the end of the string and changes nothing else of it. So the
/// characters afterwards are those before, in their order, and then `ch`.
pub assume_specification[ String::push ](s: &mut String, ch: char)
    ensures
        final(s)@ == old(s)@.push(ch),
;

impl S {
    /// The canonical text of the tree.
    pub fn to_string(&self) -> (text: String)
        ensures
            text@ == self@.render(),
    {
        let mut text = String::new();
        self.write_to(&mut text);
        text
    }

    /// Appends the canonical text of the tree to `out`.
    pub fn write_to(&self, out: &mut String)
        ensures
            final(out)@ == old(out)@ + self@.render(),
        decreases self,
    {
        match self {
            S::Atom(c) => {
                out.push(*c);
            },
            S::Cons(op, kids) => {
                out.push('(');
                out.push(*op);
                out.push(' ');
                let ghost head = out@;
                let ghost all = self@->Cons_1;
                proof {
                    lemma_views(kids@);
                }
                let mut i: usize = 0;
                while i < kids.len()
                    invariant
                        i <= kids.len(),
                        *self == S::Cons(*op, *kids),
                        all.len() == kids.len(),
                        forall|j: int| 0 <= j < kids.len() ==> all[j] == (#[trigger] kids@[j])@,
                        out@ == head + render_joined(all.take(i as int)),
                    decreases kids.len() - i,
                {
                    if i > 0 {
                        out.push(' ');
                    }
                    assert(decreases_to!(self => self->Cons_1@[i as int]));
                    kids[i].write_to(out);
                    proof {
                        assert(all.take(i + 1).drop_last() == all.take(i as int));
                        assert(all.take(i + 1).last() == kids@[i as int]@);
                    }
                    i += 1;
                }
                proof {
                    assert(all.take(kids.len() as int) == all);
                }
                out.push(')');
            },
        }
    }
}

} // verus!
