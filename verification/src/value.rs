//! Values and the variable environment.

use vstd::prelude::*;
use crate::quantity::Quantity;

verus! {

/// What an expression evaluates to.
#[derive(Debug)]
pub enum RValue {
    Void,
    Number(Quantity),
    String(String),
    /// Width, height and the cells in row-major order.
    Matrix(usize, usize, Vec<RValue>),
}

/// The mathematical content of an [`RValue`].
pub ghost enum RValueView {
    Void,
    Number(Quantity),
    String(Seq<char>),
    Matrix(usize, usize, Seq<RValueView>),
}

/// The kinds of value.
#[derive(Debug, Clone, Copy, PartialEq, Eq, Structural)]
pub enum Kind {
    Void,
    Number,
    String,
    Matrix,
}

impl RValue {
    /// The content of the value.
    pub open spec fn content(self) -> RValueView
        decreases self,
    {
        match self {
            RValue::Void => RValueView::Void,
            RValue::Number(q) => RValueView::Number(q),
            RValue::String(s) => RValueView::String(s@),
            RValue::Matrix(w, h, cells) => RValueView::Matrix(
                w,
                h,
                Seq::new(
                    cells.len() as nat,
                    |i: int|
                        if 0 <= i < cells.len() {
                            cells[i].content()
                        } else {
                            arbitrary()
                        },
                ),
            ),
        }
    }
}

impl View for RValue {
    type V = RValueView;

    open spec fn view(&self) -> RValueView {
        self.content()
    }
}

/// The contents of a sequence of values.
pub open spec fn values_view(values: Seq<RValue>) -> Seq<RValueView> {
    values.map_values(|v: RValue| v@)
}

/// The cells of a matrix's content are the contents of its cells.
pub proof fn lemma_cells(w: usize, h: usize, cells: Vec<RValue>)
    ensures
        RValue::Matrix(w, h, cells)@ == RValueView::Matrix(w, h, values_view(cells@)),
{
    let a = RValue::Matrix(w, h, cells)@->Matrix_2;
    let b = values_view(cells@);
    assert(a.len() == b.len());
    assert forall|i: int| 0 <= i < a.len() implies a[i] == b[i] by {
        assert(b[i] == cells@[i]@);
    }
    assert(a =~= b);
}

impl RValueView {
    /// The kind of the value.
    pub open spec fn kind(self) -> Kind {
        match self {
            RValueView::Void => Kind::Void,
            RValueView::Number(_) => Kind::Number,
            RValueView::String(_) => Kind::String,
            RValueView::Matrix(_, _, _) => Kind::Matrix,
        }
    }
}

impl RValue {
    /// The kind of the value.
    pub fn get_type(&self) -> (k: Kind)
        ensures
            k == self@.kind(),
    {
        match self {
            RValue::Void => Kind::Void,
            RValue::Number(_) => Kind::Number,
            RValue::String(_) => Kind::String,
            RValue::Matrix(_, _, _) => Kind::Matrix,
        }
    }

    /// A copy of the value with the same content.
    #[verifier::loop_isolation(false)]
    pub fn duplicate(&self) -> (r: RValue)
        ensures
            r@ == self@,
        decreases self,
    {
        match self {
            RValue::Void => RValue::Void,
            RValue::Number(q) => RValue::Number(*q),
            RValue::String(s) => RValue::String(s.clone()),
            RValue::Matrix(w, h, cells) => {
                let mut copy: Vec<RValue> = Vec::new();
                let mut i: usize = 0;
                while i < cells.len()
                    invariant
                        i <= cells.len(),
                        values_view(copy@) == values_view(cells@).take(i as int),
                        self == RValue::Matrix(*w, *h, *cells),
                    decreases cells.len() - i,
                {
                    let cell = cells[i].duplicate();
                    let ghost before = values_view(copy@);
                    copy.push(cell);
                    assert(values_view(copy@) =~= before.push(cell@));
                    assert(values_view(cells@).take(i + 1) =~= values_view(cells@).take(
                        i as int,
                    ).push(cells@[i as int]@));
                    i += 1;
                }
                assert(values_view(cells@).take(cells.len() as int) == values_view(cells@));
                proof {
                    lemma_cells(*w, *h, *cells);
                    lemma_cells(*w, *h, copy);
                }
                RValue::Matrix(*w, *h, copy)
            },
        }
    }
}

/// A variable with its value.
#[derive(Debug)]
pub struct Binding {
    pub name: String,
    pub value: RValue,
}

/// The variables of one evaluation, in the order in which they were first
/// assigned.
#[derive(Debug)]
pub struct Environment {
    pub bindings: Vec<Binding>,
}

/// The mathematical content of an [`Environment`]: names with values.
pub type Bindings = Seq<(Seq<char>, RValueView)>;

impl View for Environment {
    type V = Bindings;

    open spec fn view(&self) -> Bindings {
        self.bindings@.map_values(|b: Binding| (b.name@, b.value@))
    }
}

/// The position of the first binding of `name`, or the number of bindings
/// if there is none.
pub open spec fn position(bindings: Bindings, name: Seq<char>) -> int
    decreases bindings.len(),
{
    if bindings.len() == 0 {
        0
    } else if bindings[0].0 == name {
        0
    } else {
        1 + position(bindings.drop_first(), name)
    }
}

/// The value bound to `name`, if any.
pub open spec fn lookup(bindings: Bindings, name: Seq<char>) -> Option<RValueView> {
    let at = position(bindings, name);
    if at < bindings.len() {
        Some(bindings[at].1)
    } else {
        None
    }
}

/// The bindings after `name` was assigned `value`: an existing binding is
/// replaced in place, a new one is added at the end.
pub open spec fn bind(bindings: Bindings, name: Seq<char>, value: RValueView) -> Bindings {
    let at = position(bindings, name);
    if at < bindings.len() {
        bindings.update(at, (name, value))
    } else {
        bindings.push((name, value))
    }
}

/// The position of a name lies within the bindings or just behind them, no
/// earlier binding has the name, and a binding at the position has it.
pub proof fn lemma_position(bindings: Bindings, name: Seq<char>)
    ensures
        0 <= position(bindings, name) <= bindings.len(),
        forall|k: int| 0 <= k < position(bindings, name) ==> (#[trigger] bindings[k]).0 != name,
        position(bindings, name) < bindings.len() ==> bindings[position(bindings, name)].0
            == name,
    decreases bindings.len(),
{
    if bindings.len() > 0 && bindings[0].0 != name {
        let rest = bindings.drop_first();
        lemma_position(rest, name);
        assert forall|k: int| 0 <= k < position(bindings, name) implies (
        #[trigger] bindings[k]).0 != name by {
            if k > 0 {
                assert(bindings[k] == rest[k - 1]);
            }
        }
        if position(bindings, name) < bindings.len() {
            assert(bindings[position(bindings, name)] == rest[position(rest, name)]);
        }
    }
}

/// A position with the name and no earlier binding of it is the position
/// of the name.
pub proof fn lemma_position_is(bindings: Bindings, name: Seq<char>, at: int)
    requires
        0 <= at <= bindings.len(),
        forall|k: int| 0 <= k < at ==> (#[trigger] bindings[k]).0 != name,
        at < bindings.len() ==> bindings[at].0 == name,
    ensures
        position(bindings, name) == at,
    decreases bindings.len(),
{
    if bindings.len() > 0 {
        if at == 0 {
        } else {
            assert(bindings[0].0 != name);
            let rest = bindings.drop_first();
            assert forall|k: int| 0 <= k < at - 1 implies (#[trigger] rest[k]).0 != name by {
                assert(rest[k] == bindings[k + 1]);
            }
            lemma_position_is(rest, name, at - 1);
        }
    }
}

/// A variable holds what was last assigned to it, and assigning to one
/// variable leaves every other variable as it was.
pub proof fn lemma_bind_lookup(
    bindings: Bindings,
    name: Seq<char>,
    value: RValueView,
    other: Seq<char>,
)
    ensures
        lookup(bind(bindings, name, value), name) == Some(value),
        other != name ==> lookup(bind(bindings, name, value), other) == lookup(bindings, other),
{
    let after = bind(bindings, name, value);
    let at = position(bindings, name);
    lemma_position(bindings, name);
    lemma_position_is(after, name, at);
    if other != name {
        let there = position(bindings, other);
        lemma_position(bindings, other);
        if there < bindings.len() || at < bindings.len() {
            lemma_position_is(after, other, there);
        } else {
            lemma_position_is(after, other, there + 1);
        }
    }
}

impl Environment {
    /// An environment without variables.
    pub fn new() -> (r: Environment)
        ensures
            r@ == Seq::<(Seq<char>, RValueView)>::empty(),
    {
        let r = Environment { bindings: Vec::new() };
        assert(r@ =~= Seq::<(Seq<char>, RValueView)>::empty());
        r
    }

    /// The position of the first binding of `name`, or the number of
    /// bindings.
    fn find(&self, name: &String) -> (at: usize)
        ensures
            at == position(self@, name@),
            at <= self.bindings.len(),
    {
        let mut i: usize = 0;
        while i < self.bindings.len()
            invariant
                i <= self.bindings.len(),
                forall|k: int| 0 <= k < i ==> (#[trigger] self@[k]).0 != name@,
            decreases self.bindings.len() - i,
        {
            if self.bindings[i].name == *name {
                proof {
                    lemma_position_is(self@, name@, i as int);
                }
                return i;
            }
            i += 1;
        }
        proof {
            lemma_position_is(self@, name@, i as int);
        }
        i
    }

    /// The value of the variable `name`, if it has one.
    pub fn get(&self, name: &String) -> (r: Option<&RValue>)
        ensures
            match r {
                Some(v) => lookup(self@, name@) == Some(v@),
                None => lookup(self@, name@) is None,
            },
    {
        let at = self.find(name);
        if at < self.bindings.len() {
            Some(&self.bindings[at].value)
        } else {
            None
        }
    }

    /// Assigns `value` to the variable `name`.
    pub fn insert(&mut self, name: String, value: RValue)
        ensures
            final(self)@ == bind(old(self)@, name@, value@),
    {
        let at = self.find(&name);
        let ghost before = self@;
        if at < self.bindings.len() {
            let _ = self.bindings.remove(at);
            self.bindings.insert(at, Binding { name, value });
            assert(self@ =~= before.update(at as int, (name@, value@)));
        } else {
            self.bindings.push(Binding { name, value });
            assert(self@ =~= before.push((name@, value@)));
        }
    }
}

} // verus!
