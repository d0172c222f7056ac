//! The expressions that a schematic file is made of.

use crate::double::Double;
use crate::text::same;
use vstd::prelude::*;

verus! {

/// A word, a number or a quoted string. Of a number the value is kept as well.
pub struct Atom {
    pub text: String,
    pub number: Option<Double>,
}

/// An expression: an atom, or a list in parentheses.
pub enum Node {
    Atom(Atom),
    List(Vec<Node>),
}

/// An expression as a value.
pub ghost enum Sexp {
    Atom(Seq<char>, Option<Double>),
    List(Seq<Sexp>),
}

impl Node {
    pub open spec fn view(self) -> Sexp
        decreases self,
    {
        match self {
            Node::Atom(atom) => Sexp::Atom(atom.text@, atom.number),
            Node::List(items) => Sexp::List(
                Seq::new(
                    items@.len(),
                    |i: int|
                        if 0 <= i < items@.len() {
                            items@[i].view()
                        } else {
                            arbitrary()
                        },
                ),
            ),
        }
    }

    /// Every number in the expression is well formed and lies below `2^53`, and no text is
    /// longer than a file can be.
    pub open spec fn wf(self) -> bool
        decreases self,
    {
        match self {
            Node::Atom(atom) => atom.text@.len() <= u32::MAX && (atom.number matches Some(n) ==> n.wf()
                && n.within(2000) && n.exponent <= 0),
            Node::List(items) => forall|i: int|
                0 <= i < items@.len() ==> (#[trigger] items@[i]).wf(),
        }
    }
}

/// Expressions as values.
pub open spec fn sexps(nodes: Seq<Node>) -> Seq<Sexp> {
    nodes.map_values(|n: Node| n@)
}

/// The expressions that references lead to, as values.
pub open spec fn ref_sexps(nodes: Seq<&Node>) -> Seq<Sexp> {
    nodes.map_values(|n: &Node| n@)
}

pub proof fn lemma_list(node: Node)
    ensures
        node matches Node::List(items) ==> node@ == Sexp::List(sexps(items@)),
{
    if let Node::List(items) = node {
        assert(node@->List_0 =~= sexps(items@));
    }
}

impl Sexp {
    /// The parts of a list; an atom has none.
    pub open spec fn items(self) -> Seq<Sexp> {
        match self {
            Sexp::List(items) => items,
            Sexp::Atom(..) => Seq::empty(),
        }
    }

    /// The text of an atom.
    pub open spec fn text(self) -> Option<Seq<char>> {
        match self {
            Sexp::Atom(text, _) => Some(text),
            Sexp::List(_) => None,
        }
    }

    /// The value of an atom that is a number.
    pub open spec fn number(self) -> Option<Double> {
        match self {
            Sexp::Atom(_, number) => number,
            Sexp::List(_) => None,
        }
    }

    /// The part at the given place of a list.
    pub open spec fn part(self, i: int) -> Option<Sexp> {
        if 0 <= i < self.items().len() {
            Some(self.items()[i])
        } else {
            None
        }
    }

    pub open spec fn part_text(self, i: int) -> Option<Seq<char>> {
        match self.part(i) {
            Some(part) => part.text(),
            None => None,
        }
    }

    pub open spec fn part_number(self, i: int) -> Option<Double> {
        match self.part(i) {
            Some(part) => part.number(),
            None => None,
        }
    }

    /// The word that a list begins with.
    pub open spec fn head(self) -> Option<Seq<char>> {
        self.part_text(0)
    }

    /// The list begins with this word.
    pub open spec fn is_a(self, tag: Seq<char>) -> bool {
        self.head() == Some(tag)
    }

    /// Those of the first `n` parts that are lists beginning with `tag`.
    pub open spec fn tagged_upto(self, tag: Seq<char>, n: nat) -> Seq<Sexp>
        decreases n,
    {
        if n == 0 {
            Seq::empty()
        } else {
            let before = self.tagged_upto(tag, (n - 1) as nat);
            if self.items()[n - 1].is_a(tag) {
                before.push(self.items()[n - 1])
            } else {
                before
            }
        }
    }

    /// The parts that are lists beginning with `tag`, in order.
    pub open spec fn tagged(self, tag: Seq<char>) -> Seq<Sexp> {
        self.tagged_upto(tag, self.items().len())
    }

    /// The first part that is a list beginning with `tag`.
    pub open spec fn first(self, tag: Seq<char>) -> Option<Sexp> {
        if self.tagged(tag).len() > 0 {
            Some(self.tagged(tag)[0])
        } else {
            None
        }
    }

    /// The text that follows `tag` in the first part that is a list beginning with it.
    pub open spec fn first_text(self, tag: Seq<char>) -> Option<Seq<char>> {
        match self.first(tag) {
            Some(part) => part.part_text(1),
            None => None,
        }
    }
}

impl Sexp {
    /// Every number in the expression is well formed and lies below `2^53`, and no text is
    /// longer than a file can be.
    pub open spec fn sound(self) -> bool
        decreases self,
    {
        match self {
            Sexp::Atom(text, number) => text.len() <= u32::MAX && (number matches Some(n) ==> n.wf()
                && n.within(2000) && n.exponent <= 0),
            Sexp::List(items) => forall|i: int|
                0 <= i < items.len() ==> (#[trigger] items[i]).sound(),
        }
    }
}

/// A well-formed expression is sound as a value.
pub proof fn lemma_numbers(node: Node)
    requires
        node.wf(),
    ensures
        node@.sound(),
    decreases node,
{
    lemma_list(node);
    if let Node::List(items) = node {
        assert forall|i: int| 0 <= i < items@.len() implies (#[trigger] sexps(
            items@,
        )[i]).sound() by {
            assert(items@[i].wf());
            lemma_numbers(items@[i]);
        }
    }
}

proof fn lemma_tagged_sound(s: Sexp, tag: Seq<char>, n: nat)
    requires
        s.sound(),
        n <= s.items().len(),
    ensures
        forall|i: int|
            0 <= i < s.tagged_upto(tag, n).len() ==> (#[trigger] s.tagged_upto(tag, n)[i]).sound(),
    decreases n,
{
    if n > 0 {
        lemma_tagged_sound(s, tag, (n - 1) as nat);
        let before = s.tagged_upto(tag, (n - 1) as nat);
        assert(s.items()[n - 1].sound());
        assert forall|i: int| 0 <= i < s.tagged_upto(tag, n).len() implies (
        #[trigger] s.tagged_upto(tag, n)[i]).sound() by {
            if i < before.len() {
                assert(s.tagged_upto(tag, n)[i] == before[i]);
            }
        }
    }
}

pub proof fn lemma_first_sound(s: Sexp, tag: Seq<char>)
    requires
        s.sound(),
    ensures
        s.first(tag) matches Some(part) ==> part.sound(),
        forall|i: int| 0 <= i < s.tagged(tag).len() ==> (#[trigger] s.tagged(tag)[i]).sound(),
{
    lemma_tagged_sound(s, tag, s.items().len());
}

/// The characters of an optional reference to a string.
pub open spec fn ref_view(s: Option<&str>) -> Option<Seq<char>> {
    match s {
        Some(s) => Some(s@),
        None => None,
    }
}

/// The reference is there and holds these characters.
pub fn is_text(s: Option<&str>, expected: &str) -> (r: bool)
    ensures
        r == (ref_view(s) == Some(expected@)),
{
    match s {
        Some(s) => same(s, expected),
        None => false,
    }
}

impl Node {
    /// The text of an atom.
    pub fn as_str(&self) -> (r: Option<&str>)
        ensures
            ref_view(r) == self@.text(),
    {
        match self {
            Node::Atom(atom) => Some(atom.text.as_str()),
            Node::List(_) => None,
        }
    }

    /// The part at the given place of a list.
    pub fn get(&self, i: usize) -> (r: Option<&Node>)
        ensures
            match r {
                Some(node) => self@.part(i as int) == Some(node@) && (self.wf() ==> node.wf()),
                None => self@.part(i as int) is None,
            },
    {
        proof {
            lemma_list(*self);
        }
        match self {
            Node::Atom(_) => None,
            Node::List(items) => {
                if i < items.len() {
                    Some(&items[i])
                } else {
                    None
                }
            },
        }
    }

    /// The text of the part at the given place.
    pub fn get_str(&self, i: usize) -> (r: Option<&str>)
        ensures
            ref_view(r) == self@.part_text(i as int),
            self.wf() ==> (r matches Some(s) ==> s@.len() <= u32::MAX),
    {
        match self.get(i) {
            Some(node) => node.as_str(),
            None => None,
        }
    }

    /// The number at the given place.
    pub fn get_number(&self, i: usize) -> (r: Option<Double>)
        ensures
            r == self@.part_number(i as int),
            self.wf() ==> (r matches Some(n) ==> n.wf() && n.within(2000) && n.exponent <= 0),
    {
        match self.get(i) {
            Some(Node::Atom(atom)) => atom.number,
            _ => None,
        }
    }

    /// The word that a list begins with.
    pub fn head(&self) -> (r: Option<&str>)
        ensures
            ref_view(r) == self@.head(),
    {
        self.get_str(0)
    }

    /// The list begins with this word.
    pub fn is_a(&self, tag: &str) -> (r: bool)
        ensures
            r == self@.is_a(tag@),
    {
        is_text(self.head(), tag)
    }

    /// The number of parts of a list.
    pub fn count(&self) -> (r: usize)
        ensures
            r == self@.items().len(),
    {
        proof {
            lemma_list(*self);
        }
        match self {
            Node::Atom(_) => 0,
            Node::List(items) => items.len(),
        }
    }

    /// The parts that are lists beginning with `tag`, in order.
    pub fn find_all(&self, tag: &str) -> (r: Vec<&Node>)
        ensures
            ref_sexps(r@) == self@.tagged(tag@),
            self.wf() ==> forall|i: int| 0 <= i < r@.len() ==> (#[trigger] r@[i]).wf(),
    {
        let mut r: Vec<&Node> = Vec::new();
        proof {
            lemma_list(*self);
        }
        assert(ref_sexps(r@) =~= Seq::empty());
        if let Node::List(items) = self {
            let mut i: usize = 0;
            while i < items.len()
                invariant
                    i <= items@.len(),
                    self@ == Sexp::List(sexps(items@)),
                    self.wf() ==> forall|i: int| 0 <= i < items@.len() ==> (#[trigger] items@[i]).wf(),
                    ref_sexps(r@) =~= self@.tagged_upto(tag@, i as nat),
                    self.wf() ==> forall|i: int| 0 <= i < r@.len() ==> (#[trigger] r@[i]).wf(),
                decreases items@.len() - i,
            {
                if items[i].is_a(tag) {
                    r.push(&items[i]);
                }
                i = i + 1;
            }
        }
        r
    }

    /// The first part that is a list beginning with `tag`.
    pub fn find(&self, tag: &str) -> (r: Option<&Node>)
        ensures
            match r {
                Some(node) => self@.first(tag@) == Some(node@) && (self.wf() ==> node.wf()),
                None => self@.first(tag@) is None,
            },
    {
        let all = self.find_all(tag);
        if all.len() > 0 {
            assert(ref_sexps(all@)[0] == all@[0]@);
            Some(all[0])
        } else {
            None
        }
    }

    /// The text that follows `tag` in the first part that is a list beginning with it.
    pub fn find_str(&self, tag: &str) -> (r: Option<&str>)
        ensures
            ref_view(r) == self@.first_text(tag@),
    {
        match self.find(tag) {
            Some(node) => node.get_str(1),
            None => None,
        }
    }
}

proof fn lemma_tagged_is_filtered(s: Sexp, tag: Seq<char>, n: nat)
    requires
        n <= s.items().len(),
    ensures
        s.tagged_upto(tag, n) == s.items().take(n as int).filter(
            |part: Sexp| part.part_text(0) == Some(tag),
        ),
    decreases n,
{
    reveal(Seq::filter);
    if n > 0 {
        lemma_tagged_is_filtered(s, tag, (n - 1) as nat);
        assert(s.items().take(n as int).drop_last() =~= s.items().take(n - 1));
    }
}

/// The parts that begin with a word are all those among the parts of a list that do, in their
/// order.
pub proof fn tagged_parts_are_those_with_the_word(s: Sexp, tag: Seq<char>)
    ensures
        s.tagged(tag) == s.items().filter(|part: Sexp| part.part_text(0) == Some(tag)),
{
    lemma_tagged_is_filtered(s, tag, s.items().len());
    assert(s.items().take(s.items().len() as int) =~= s.items());
}

proof fn lemma_tagged_first(s: Sexp, tag: Seq<char>, n: nat)
    requires
        n <= s.items().len(),
    ensures
        s.tagged_upto(tag, n).len() == 0 ==> forall|k: int|
            0 <= k < n ==> (#[trigger] s.items()[k]).part_text(0) != Some(tag),
        s.tagged_upto(tag, n).len() > 0 ==> exists|i: int|
            0 <= i < n && (#[trigger] s.items()[i]) == s.tagged_upto(tag, n)[0]
                && s.items()[i].part_text(0) == Some(tag) && forall|k: int|
                0 <= k < i ==> (#[trigger] s.items()[k]).part_text(0) != Some(tag),
    decreases n,
{
    if n > 0 {
        lemma_tagged_first(s, tag, (n - 1) as nat);
        let before = s.tagged_upto(tag, (n - 1) as nat);
        if before.len() > 0 {
            let i = choose|i: int|
                0 <= i < n - 1 && (#[trigger] s.items()[i]) == before[0] && s.items()[i].part_text(
                    0,
                ) == Some(tag) && forall|k: int|
                    0 <= k < i ==> (#[trigger] s.items()[k]).part_text(0) != Some(tag);
            assert(s.items()[i] == s.tagged_upto(tag, n)[0]);
        } else if s.items()[n - 1].is_a(tag) {
            assert(s.items()[n - 1] == s.tagged_upto(tag, n)[0]);
        }
    }
}

/// The first part that begins with a word is in the list and begins with it, and no part before it
/// does; where there is none, no part does.
pub proof fn first_part_comes_first(s: Sexp, tag: Seq<char>)
    ensures
        match s.first(tag) {
            Some(part) => exists|i: int|
                0 <= i < s.items().len() && #[trigger] s.items()[i] == part && part.part_text(0)
                    == Some(tag) && forall|k: int|
                    0 <= k < i ==> (#[trigger] s.items()[k]).part_text(0) != Some(tag),
            None => forall|k: int|
                0 <= k < s.items().len() ==> (#[trigger] s.items()[k]).part_text(0) != Some(tag),
        },
{
    lemma_tagged_first(s, tag, s.items().len());
}

/// A part that begins with a word is among the parts that do.
pub proof fn tagged_parts_are_found(s: Sexp, tag: Seq<char>, i: int)
    requires
        0 <= i < s.items().len(),
        s.items()[i].part_text(0) == Some(tag),
    ensures
        s.tagged(tag).contains(s.items()[i]),
{
    tagged_parts_are_those_with_the_word(s, tag);
    s.items().lemma_filter_contains(|part: Sexp| part.part_text(0) == Some(tag), i);
}

/// A part among those that begin with a word is a part of the list and begins with the word.
pub proof fn tagged_parts_are_parts(s: Sexp, tag: Seq<char>, k: int) -> (i: int)
    requires
        0 <= k < s.tagged(tag).len(),
    ensures
        0 <= i < s.items().len(),
        s.items()[i] == s.tagged(tag)[k],
        s.items()[i].part_text(0) == Some(tag),
{
    let begins = |part: Sexp| part.part_text(0) == Some(tag);
    tagged_parts_are_those_with_the_word(s, tag);
    s.items().lemma_filter_pred(begins, k);
    s.items().lemma_filter_contains_rev(begins, s.tagged(tag)[k]);
    choose|i: int| 0 <= i < s.items().len() && s.items()[i] == s.tagged(tag)[k]
}

} // verus!
