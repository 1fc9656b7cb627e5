//! The chain of lexical scopes.
//!
//! All bindings stand in one list, the innermost scope last; a list of marks
//! says where each scope starts. The nearest binding of a name is the last
//! one in the list.

use vstd::prelude::*;
use crate::values::{Value, ValueView};

verus! {

/// A name bound to a value.
#[derive(Clone, Debug, PartialEq)]
pub struct Binding {
    pub name: String,
    pub value: Value,
}

/// The chain of scopes of one evaluation.
#[derive(Clone, Debug, PartialEq)]
pub struct Environment {
    pub bindings: Vec<Binding>,
    /// Where each scope after the outermost starts in `bindings`.
    pub marks: Vec<usize>,
}

/// The mathematical value of an `Environment`.
pub struct Scopes {
    pub bindings: Seq<(Seq<char>, ValueView)>,
    pub marks: Seq<int>,
}

/// The bindings as pairs of plain values.
pub open spec fn pairs(bindings: Seq<Binding>) -> Seq<(Seq<char>, ValueView)> {
    Seq::new(bindings.len(), |i: int| (bindings[i].name@, bindings[i].value@))
}

impl View for Environment {
    type V = Scopes;

    open spec fn view(&self) -> Scopes {
        Scopes {
            bindings: pairs(self.bindings@),
            marks: Seq::new(self.marks@.len(), |i: int| self.marks@[i] as int),
        }
    }
}

impl Scopes {
    /// Every mark lies in the list, and the marks do not decrease.
    pub open spec fn wf(self) -> bool {
        &&& forall|i: int| 0 <= i < self.marks.len() ==> 0 <= #[trigger] self.marks[i] <= self.bindings.len()
        &&& forall|i: int, j: int|
            0 <= i <= j < self.marks.len() ==> #[trigger] self.marks[i] <= #[trigger] self.marks[j]
    }

    /// Where the innermost scope starts.
    pub open spec fn innermost_start(self) -> int {
        if self.marks.len() == 0 {
            0
        } else {
            self.marks.last()
        }
    }

    /// The last binding of `name` at or behind `from`, if there is one.
    pub open spec fn find(self, name: Seq<char>, from: int) -> Option<int> {
        if exists|i: int| from <= i < self.bindings.len() && self.bindings[i].0 == name {
            Some(last_index(self.bindings, name, self.bindings.len() as int))
        } else {
            None
        }
    }

    /// The value of the nearest binding of `name`.
    pub open spec fn lookup(self, name: Seq<char>) -> Option<ValueView> {
        match self.find(name, 0) {
            Some(i) => Some(self.bindings[i].1),
            None => None,
        }
    }

    /// With a new innermost scope, which is empty.
    pub open spec fn entered(self) -> Scopes {
        Scopes { bindings: self.bindings, marks: self.marks.push(self.bindings.len() as int) }
    }

    /// Without the innermost scope and its bindings. The outermost scope stays.
    pub open spec fn left(self) -> Scopes {
        if self.marks.len() == 0 {
            self
        } else {
            Scopes {
                bindings: self.bindings.subrange(0, self.marks.last()),
                marks: self.marks.drop_last(),
            }
        }
    }

    /// Without the innermost scopes, so that at most `depth` are left
    /// inside the outermost one.
    pub open spec fn unwound(self, depth: nat) -> Scopes
        decreases self.marks.len(),
    {
        if self.marks.len() > depth {
            self.left().unwound(depth)
        } else {
            self
        }
    }

    /// With `name` bound to `value` in the innermost scope: a binding that
    /// the scope has already is replaced.
    pub open spec fn declared(self, name: Seq<char>, value: ValueView) -> Scopes {
        match self.find(name, self.innermost_start()) {
            Some(i) => Scopes { bindings: self.bindings.update(i, (name, value)), marks: self.marks },
            None => Scopes { bindings: self.bindings.push((name, value)), marks: self.marks },
        }
    }

    /// With the nearest binding of `name` set to `value`; `None` where no
    /// scope binds the name.
    pub open spec fn assigned(self, name: Seq<char>, value: ValueView) -> Option<Scopes> {
        match self.find(name, 0) {
            Some(i) => Some(
                Scopes { bindings: self.bindings.update(i, (name, value)), marks: self.marks },
            ),
            None => None,
        }
    }
}

/// The greatest index below `end` at which `name` is bound, or -1.
pub open spec fn last_index(bindings: Seq<(Seq<char>, ValueView)>, name: Seq<char>, end: int) -> int
    decreases end,
{
    if end <= 0 {
        -1
    } else if bindings[end - 1].0 == name {
        end - 1
    } else {
        last_index(bindings, name, end - 1)
    }
}

/// `last_index` gives the last binding of the name below `end`, if any.
pub proof fn lemma_last_index(bindings: Seq<(Seq<char>, ValueView)>, name: Seq<char>, end: int)
    requires
        0 <= end <= bindings.len(),
    ensures
        -1 <= last_index(bindings, name, end) < end,
        last_index(bindings, name, end) >= 0 ==> bindings[last_index(bindings, name, end)].0
            == name,
        forall|i: int|
            last_index(bindings, name, end) < i < end ==> (#[trigger] bindings[i]).0 != name,
    decreases end,
{
    if end > 0 && bindings[end - 1].0 != name {
        lemma_last_index(bindings, name, end - 1);
    }
}

impl Environment {
    /// The marks lie in the list of bindings and do not decrease.
    pub open spec fn wf(&self) -> bool {
        self@.wf()
    }

    /// Tests whether the marks lie in the list of bindings and do not decrease.
    pub fn is_well_formed(&self) -> (ok: bool)
        ensures
            ok == self.wf(),
    {
        let mut i: usize = 0;
        let mut floor: usize = 0;
        while i < self.marks.len()
            invariant
                i <= self.marks@.len(),
                forall|j: int| 0 <= j < i ==> 0 <= #[trigger] self@.marks[j] <= self@.bindings.len(),
                forall|j: int, k: int|
                    0 <= j <= k < i ==> #[trigger] self@.marks[j] <= #[trigger] self@.marks[k],
                forall|j: int| 0 <= j < i ==> #[trigger] self@.marks[j] <= floor,
                i > 0 ==> floor == self@.marks[i - 1],
                i == 0 ==> floor == 0,
            decreases self.marks@.len() - i,
        {
            let mark = self.marks[i];
            if mark > self.bindings.len() || mark < floor {
                assert(self@.marks[i as int] == mark);
                if mark < floor {
                    assert(i > 0);
                    assert(self@.marks[i - 1] > self@.marks[i as int]);
                }
                return false;
            }
            floor = mark;
            i += 1;
        }
        true
    }

    /// An environment with the outermost scope alone, which is empty.
    pub fn new() -> (environment: Environment)
        ensures
            environment.wf(),
            environment@.bindings.len() == 0,
            environment@.marks.len() == 0,
    {
        Environment { bindings: Vec::new(), marks: Vec::new() }
    }

    /// The index of the last binding of `name` at or behind `from`.
    fn find(&self, name: &String, from: usize) -> (found: Option<usize>)
        ensures
            match self@.find(name@, from as int) {
                Some(i) => found is Some && found->0 == i && from <= i < self.bindings@.len(),
                None => found is None,
            },
    {
        let mut i: usize = self.bindings.len();
        proof {
            lemma_last_index(self@.bindings, name@, self@.bindings.len() as int);
        }
        while i > from
            invariant
                i <= self.bindings@.len(),
                forall|j: int| i <= j < self.bindings@.len() ==> (#[trigger] self@.bindings[j]).0 != name@,
            decreases i,
        {
            if self.bindings[i - 1].name == *name {
                proof {
                    lemma_last_index(self@.bindings, name@, self@.bindings.len() as int);
                    assert(self@.bindings[i - 1].0 == name@);
                }
                return Some(i - 1);
            }
            i -= 1;
        }
        None
    }

    /// The value of the nearest binding of `name`.
    pub fn lookup(&self, name: &String) -> (value: Option<Value>)
        ensures
            match self@.lookup(name@) {
                Some(expected) => value is Some && value->0@ == expected,
                None => value is None,
            },
    {
        match self.find(name, 0) {
            Some(i) => Some(self.bindings[i].value.copy()),
            None => None,
        }
    }

    /// Enters a new innermost scope.
    pub fn enter(&mut self)
        requires
            old(self).wf(),
        ensures
            final(self).wf(),
            final(self)@ == old(self)@.entered(),
    {
        self.marks.push(self.bindings.len());
        assert(self@.marks =~= old(self)@.marks.push(old(self)@.bindings.len() as int));
    }

    /// Leaves the innermost scope: its bindings are gone.
    pub fn leave(&mut self)
        requires
            old(self).wf(),
        ensures
            final(self).wf(),
            final(self)@ == old(self)@.left(),
    {
        match self.marks.pop() {
            Some(mark) => {
                assert(mark as int == old(self)@.marks.last());
                self.bindings.truncate(mark);
                assert(self@.marks =~= old(self)@.marks.drop_last());
                assert(self@.bindings =~= old(self)@.bindings.subrange(0, mark as int));
            },
            None => {
                assert(self@.marks =~= old(self)@.marks);
                assert(self@.bindings =~= old(self)@.bindings);
            },
        }
    }

    /// Binds `name` to `value` in the innermost scope.
    pub fn declare(&mut self, name: String, value: Value)
        requires
            old(self).wf(),
        ensures
            final(self).wf(),
            final(self)@ == old(self)@.declared(name@, value@),
    {
        let start = if self.marks.len() == 0 {
            0
        } else {
            self.marks[self.marks.len() - 1]
        };
        let ghost pair = (name@, value@);
        match self.find(&name, start) {
            Some(i) => {
                self.bindings[i] = Binding { name, value };
                assert(self@.bindings =~= old(self)@.bindings.update(i as int, pair));
                assert(self@.marks =~= old(self)@.marks);
            },
            None => {
                self.bindings.push(Binding { name, value });
                assert(self@.bindings =~= old(self)@.bindings.push(pair));
                assert(self@.marks =~= old(self)@.marks);
            },
        }
    }

    /// Sets the nearest binding of `name` to `value`. Where no scope binds
    /// the name nothing changes and the result is `false`.
    pub fn assign(&mut self, name: String, value: Value) -> (done: bool)
        requires
            old(self).wf(),
        ensures
            final(self).wf(),
            match old(self)@.assigned(name@, value@) {
                Some(scopes) => done && final(self)@ == scopes,
                None => !done && final(self)@ == old(self)@,
            },
    {
        let ghost pair = (name@, value@);
        match self.find(&name, 0) {
            Some(i) => {
                self.bindings[i] = Binding { name, value };
                assert(self@.bindings =~= old(self)@.bindings.update(i as int, pair));
                assert(self@.marks =~= old(self)@.marks);
                true
            },
            None => {
                assert(self@.marks =~= old(self)@.marks);
                assert(self@.bindings =~= old(self)@.bindings);
                false
            },
        }
    }

    /// Leaves scopes until at most `depth` are left inside the outermost
    /// one: what an evaluation that failed inside blocks has left behind is
    /// cleared away.
    pub fn unwind(&mut self, depth: usize)
        requires
            old(self).wf(),
        ensures
            final(self).wf(),
            final(self)@ == old(self)@.unwound(depth as nat),
    {
        while self.marks.len() > depth
            invariant
                self.wf(),
                self@.unwound(depth as nat) == old(self)@.unwound(depth as nat),
            decreases self@.marks.len(),
        {
            self.leave();
        }
    }

    /// The number of scopes inside the outermost one.
    pub fn depth(&self) -> (depth: usize)
        ensures
            depth == self@.marks.len(),
    {
        self.marks.len()
    }
}

/// A scope that is entered and left again leaves every binding as it was,
/// whatever was declared inside it: a name declared inside shadows an outer
/// binding of the same name only until the scope is left.
pub proof fn lemma_declaration_stays_inside(
    scopes: Scopes,
    name: Seq<char>,
    value: ValueView,
)
    requires
        scopes.wf(),
    ensures
        scopes.entered().declared(name, value).left() == scopes,
        scopes.entered().declared(name, value).lookup(name) == Some(value),
        scopes.entered().left() == scopes,
{
    let inner = scopes.entered();
    let after = inner.declared(name, value);
    assert(inner.innermost_start() == scopes.bindings.len());
    assert(inner.find(name, inner.innermost_start()) is None);
    assert(after.bindings == scopes.bindings.push((name, value)));
    assert(after.bindings.subrange(0, scopes.bindings.len() as int) =~= scopes.bindings);
    assert(inner.marks.drop_last() =~= scopes.marks);
    assert(inner.bindings.subrange(0, scopes.bindings.len() as int) =~= scopes.bindings);
    lemma_last_index(after.bindings, name, after.bindings.len() as int);
    assert(after.bindings[after.bindings.len() - 1].0 == name);
}

} // verus!
