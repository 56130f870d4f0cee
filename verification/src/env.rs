//! The environment graph: scopes that map names to bindings, each with an
//! optional enclosing scope, held in one store and named by handles.

use vstd::prelude::*;
use crate::errors::{Error, ErrorCode, Failure, told, unplaced};
use crate::value::{LiteralType, Value};

verus! {

/// What a host function's registration records beside its value.
#[derive(Debug, PartialEq)]
pub struct FuncKind {
    pub params: Vec<String>,
    pub is_async: bool,
    pub is_pub: bool,
    pub is_impl: bool,
    pub is_mut: bool,
}

/// A registration record as contracts see it.
pub struct Signature {
    pub params: Seq<Seq<char>>,
    pub is_async: bool,
    pub is_pub: bool,
    pub is_impl: bool,
    pub is_mut: bool,
}

impl View for FuncKind {
    type V = Signature;

    open spec fn view(&self) -> Signature {
        Signature {
            params: Seq::new(self.params@.len(), |i: int| self.params@[i]@),
            is_async: self.is_async,
            is_pub: self.is_pub,
            is_impl: self.is_impl,
            is_mut: self.is_mut,
        }
    }
}

/// A value bound to a name, with its visibility.
#[derive(Debug, PartialEq)]
pub struct Binding<'a> {
    pub name: String,
    pub value: LiteralType<'a>,
    pub is_pub: bool,
    pub kind: Option<FuncKind>,
}

/// A binding as contracts see it.
pub struct Bound {
    pub name: Seq<char>,
    pub value: Value,
    pub is_pub: bool,
    pub kind: Option<Signature>,
}

impl<'a> View for Binding<'a> {
    type V = Bound;

    open spec fn view(&self) -> Bound {
        Bound {
            name: self.name@,
            value: self.value@,
            is_pub: self.is_pub,
            kind: match self.kind {
                Some(k) => Some(k@),
                None => None,
            },
        }
    }
}

/// One scope: its bindings, no name twice (`distinct`), and the handle of
/// the scope around it.
#[derive(Debug, PartialEq)]
pub struct Scope<'a> {
    pub bindings: Vec<Binding<'a>>,
    pub parent: Option<usize>,
}

/// A scope as contracts see it.
pub struct Frame {
    pub bindings: Seq<Bound>,
    pub parent: Option<usize>,
}

impl<'a> View for Scope<'a> {
    type V = Frame;

    open spec fn view(&self) -> Frame {
        Frame {
            bindings: Seq::new(self.bindings@.len(), |i: int| self.bindings@[i]@),
            parent: self.parent,
        }
    }
}

/// The store of all scopes. A handle is an index into it.
#[derive(Debug, PartialEq)]
pub struct Env<'a> {
    pub scopes: Vec<Scope<'a>>,
}

impl<'a> View for Env<'a> {
    type V = Seq<Frame>;

    open spec fn view(&self) -> Seq<Frame> {
        Seq::new(self.scopes@.len(), |i: int| self.scopes@[i]@)
    }
}

/// The first place at or behind `from` where `bindings` holds `name`.
pub open spec fn find_from(bindings: Seq<Bound>, name: Seq<char>, from: int) -> Option<int>
    decreases bindings.len() - from,
{
    if from < 0 || from >= bindings.len() {
        None
    } else if bindings[from].name == name {
        Some(from)
    } else {
        find_from(bindings, name, from + 1)
    }
}

/// The first place where `bindings` holds `name`.
pub open spec fn find(bindings: Seq<Bound>, name: Seq<char>) -> Option<int> {
    find_from(bindings, name, 0)
}

/// `bindings` with `b` bound: in the place of the binding of that name, or
/// behind the others where the name is new.
pub open spec fn put(bindings: Seq<Bound>, b: Bound) -> Seq<Bound> {
    match find(bindings, b.name) {
        Some(i) => bindings.update(i, b),
        None => bindings.push(b),
    }
}

/// `scopes` with `b` bound in scope `at`.
pub open spec fn define_in(scopes: Seq<Frame>, at: usize, b: Bound) -> Seq<Frame> {
    scopes.update(
        at as int,
        Frame { bindings: put(scopes[at as int].bindings, b), parent: scopes[at as int].parent },
    )
}

/// The scope around `at`. A link counts only if it leads to a scope made
/// before `at`, so every chain ends.
pub open spec fn outer(scopes: Seq<Frame>, at: usize) -> Option<usize> {
    if at < scopes.len() {
        match scopes[at as int].parent {
            Some(p) => if p < at {
                Some(p)
            } else {
                None
            },
            None => None,
        }
    } else {
        None
    }
}

/// Where `name` is bound as seen from scope `at`: the nearest scope on the
/// way outward that holds it, and the place in that scope.
pub open spec fn locate(scopes: Seq<Frame>, at: usize, name: Seq<char>) -> Option<(usize, int)>
    decreases at,
{
    if at >= scopes.len() {
        None
    } else {
        match find(scopes[at as int].bindings, name) {
            Some(i) => Some((at, i)),
            None => match outer(scopes, at) {
                Some(p) => locate(scopes, p, name),
                None => None,
            },
        }
    }
}

/// The value of `name` as seen from scope `at`.
pub open spec fn lookup(scopes: Seq<Frame>, at: usize, name: Seq<char>) -> Option<Value> {
    match locate(scopes, at, name) {
        Some((s, i)) => Some(scopes[s as int].bindings[i].value),
        None => None,
    }
}

/// The scope `depth` steps outward from `at`.
pub open spec fn ancestor(scopes: Seq<Frame>, at: usize, depth: nat) -> Option<usize>
    decreases depth,
{
    if at >= scopes.len() {
        None
    } else if depth == 0 {
        Some(at)
    } else {
        match outer(scopes, at) {
            Some(p) => ancestor(scopes, p, (depth - 1) as nat),
            None => None,
        }
    }
}

/// The value of `name` in the scope exactly `depth` steps outward from `at`.
pub open spec fn lookup_at(scopes: Seq<Frame>, at: usize, depth: nat, name: Seq<char>) -> Option<
    Value,
> {
    match ancestor(scopes, at, depth) {
        Some(s) => match find(scopes[s as int].bindings, name) {
            Some(i) => Some(scopes[s as int].bindings[i].value),
            None => None,
        },
        None => None,
    }
}

/// `scopes` after `value` was assigned to `name` as seen from `at`: the
/// nearest binding of the name holds the value and is otherwise unchanged.
pub open spec fn assign_in(scopes: Seq<Frame>, at: usize, name: Seq<char>, value: Value) -> Option<
    Seq<Frame>,
> {
    match locate(scopes, at, name) {
        Some((s, i)) => {
            let old = scopes[s as int].bindings[i];
            let new = Bound { name: old.name, value, is_pub: old.is_pub, kind: old.kind };
            Some(
                scopes.update(
                    s as int,
                    Frame {
                        bindings: scopes[s as int].bindings.update(i, new),
                        parent: scopes[s as int].parent,
                    },
                ),
            )
        },
        None => None,
    }
}

/// `scopes` with a fresh, empty scope inside `at`.
pub open spec fn enclose_in(scopes: Seq<Frame>, at: usize) -> Seq<Frame> {
    scopes.push(Frame { bindings: Seq::empty(), parent: Some(at) })
}

/// The failure of a name that is bound nowhere.
pub open spec fn unbound(name: Seq<char>) -> Failure {
    told(unplaced(ErrorCode::E0x306), seq![name])
}

/// No name is bound twice.
pub open spec fn distinct(bindings: Seq<Bound>) -> bool {
    forall|i: int, j: int|
        0 <= i < j < bindings.len() ==> (#[trigger] bindings[i]).name != (
        #[trigger] bindings[j]).name
}

/// No scope binds a name twice.
pub open spec fn tidy(scopes: Seq<Frame>) -> bool {
    forall|k: int| 0 <= k < scopes.len() ==> distinct((#[trigger] scopes[k]).bindings)
}

/// `find_from` gives the first place at or behind `from` that holds the
/// name, and nothing only if there is none.
pub proof fn lemma_find_first(bindings: Seq<Bound>, name: Seq<char>, from: int)
    requires
        0 <= from,
    ensures
        match find_from(bindings, name, from) {
            Some(i) => {
                &&& from <= i < bindings.len()
                &&& bindings[i].name == name
                &&& forall|k: int| from <= k < i ==> (#[trigger] bindings[k]).name != name
            },
            None => forall|k: int| from <= k < bindings.len() ==> (#[trigger] bindings[k]).name != name,
        },
    decreases bindings.len() - from,
{
    if from < bindings.len() && bindings[from].name != name {
        lemma_find_first(bindings, name, from + 1);
    }
}

/// A scope holds what was put into it, under its name.
pub proof fn lemma_put_is_found(bindings: Seq<Bound>, b: Bound)
    ensures
        find(put(bindings, b), b.name) matches Some(i) && put(bindings, b)[i] == b,
{
    lemma_find_first(bindings, b.name, 0);
    lemma_find_first(put(bindings, b), b.name, 0);
    match find(bindings, b.name) {
        Some(i) => {
            assert(put(bindings, b)[i].name == b.name);
        },
        None => {
            assert(put(bindings, b)[bindings.len() as int].name == b.name);
        },
    }
}

/// Putting one name into a scope leaves every other name where it was.
pub proof fn lemma_put_keeps_others(bindings: Seq<Bound>, b: Bound, name: Seq<char>)
    requires
        name != b.name,
    ensures
        find(put(bindings, b), name) == find(bindings, name),
        find(bindings, name) matches Some(i) ==> put(bindings, b)[i] == bindings[i],
{
    lemma_find_first(bindings, b.name, 0);
    lemma_find_first(bindings, name, 0);
    lemma_find_first(put(bindings, b), name, 0);
    match find(bindings, name) {
        Some(i) => {
            assert(put(bindings, b)[i].name == name);
        },
        None => {},
    }
}

/// Putting a binding into a scope binds no name twice.
pub proof fn lemma_put_keeps_distinct(bindings: Seq<Bound>, b: Bound)
    requires
        distinct(bindings),
    ensures
        distinct(put(bindings, b)),
{
    lemma_find_first(bindings, b.name, 0);
    let after = put(bindings, b);
    assert forall|i: int, j: int| 0 <= i < j < after.len() implies (#[trigger] after[i]).name != (
    #[trigger] after[j]).name by {
        match find(bindings, b.name) {
            Some(at) => {
                assert(bindings[at].name == b.name);
                if i != at && j != at {
                    assert(bindings[i].name != bindings[j].name);
                } else if i == at {
                    assert(bindings[at].name != bindings[j].name);
                } else {
                    assert(bindings[i].name != bindings[at].name);
                }
            },
            None => {
                if j < bindings.len() {
                    assert(bindings[i].name != bindings[j].name);
                } else {
                    assert(bindings[i].name != b.name);
                }
            },
        }
    }
}

/// Defining a name keeps every scope free of names bound twice.
pub proof fn lemma_define_keeps_tidy(scopes: Seq<Frame>, at: usize, b: Bound)
    requires
        tidy(scopes),
        at < scopes.len(),
    ensures
        tidy(define_in(scopes, at, b)),
{
    lemma_put_keeps_distinct(scopes[at as int].bindings, b);
    let after = define_in(scopes, at, b);
    assert forall|k: int| 0 <= k < after.len() implies distinct((#[trigger] after[k]).bindings) by {
        if k != at {
            assert(after[k] == scopes[k]);
        }
    }
}

/// A fresh scope keeps every scope free of names bound twice.
pub proof fn lemma_enclose_keeps_tidy(scopes: Seq<Frame>, at: usize)
    requires
        tidy(scopes),
    ensures
        tidy(enclose_in(scopes, at)),
{
    let after = enclose_in(scopes, at);
    assert forall|k: int| 0 <= k < after.len() implies distinct((#[trigger] after[k]).bindings) by {
        if k < scopes.len() {
            assert(after[k] == scopes[k]);
        }
    }
}

/// An assignment keeps every scope free of names bound twice.
pub proof fn lemma_assign_keeps_tidy(scopes: Seq<Frame>, at: usize, name: Seq<char>, value: Value)
    requires
        tidy(scopes),
    ensures
        assign_in(scopes, at, name, value) matches Some(after) ==> tidy(after),
{
    lemma_locate_is_bound(scopes, at, name);
    match (locate(scopes, at, name), assign_in(scopes, at, name, value)) {
        (Some((s, i)), Some(after)) => {
            let old_b = scopes[s as int].bindings;
            let new_b = after[s as int].bindings;
            assert forall|k: int| 0 <= k < after.len() implies distinct(
                (#[trigger] after[k]).bindings,
            ) by {
                if k != s {
                    assert(after[k] == scopes[k]);
                } else {
                    assert(distinct(old_b));
                    assert forall|x: int, y: int| 0 <= x < y < new_b.len() implies (
                    #[trigger] new_b[x]).name != (#[trigger] new_b[y]).name by {
                        assert(new_b[x].name == old_b[x].name);
                        assert(new_b[y].name == old_b[y].name);
                        assert(old_b[x].name != old_b[y].name);
                    }
                }
            }
        },
        _ => {},
    }
}

/// The scopes agree on the whole chain that leads outward from `at`: the
/// same names in the same places, the same links.
pub open spec fn same_chain(a: Seq<Frame>, b: Seq<Frame>, at: usize) -> bool {
    forall|k: int|
        0 <= k <= at && k < a.len() ==> k < b.len() && (#[trigger] b[k]).parent == a[k].parent
            && b[k].bindings.len() == a[k].bindings.len() && forall|j: int|
            0 <= j < a[k].bindings.len() ==> (#[trigger] b[k].bindings[j]).name
                == a[k].bindings[j].name
}

/// Equal names at equal places are found at equal places.
pub proof fn lemma_find_by_names(a: Seq<Bound>, b: Seq<Bound>, name: Seq<char>, from: int)
    requires
        0 <= from,
        a.len() == b.len(),
        forall|j: int| 0 <= j < a.len() ==> (#[trigger] b[j]).name == a[j].name,
    ensures
        find_from(a, name, from) == find_from(b, name, from),
    decreases a.len() - from,
{
    if from < a.len() {
        assert(b[from].name == a[from].name);
        if a[from].name != name {
            lemma_find_by_names(a, b, name, from + 1);
        }
    }
}

/// Where a name is bound depends only on the names and the links along
/// the chain.
pub proof fn lemma_locate_by_names(a: Seq<Frame>, b: Seq<Frame>, at: usize, name: Seq<char>)
    requires
        at < a.len() ==> same_chain(a, b, at),
        at >= a.len() ==> at >= b.len(),
    ensures
        locate(a, at, name) == locate(b, at, name),
    decreases at,
{
    if at < a.len() {
        assert(b[at as int].parent == a[at as int].parent);
        lemma_find_by_names(a[at as int].bindings, b[at as int].bindings, name, 0);
        if find(a[at as int].bindings, name) is None {
            match outer(a, at) {
                Some(p) => {
                    assert(same_chain(a, b, p));
                    lemma_locate_by_names(a, b, p, name);
                },
                None => {},
            }
        }
    }
}

/// Where a name is found, there it is bound.
pub proof fn lemma_locate_is_bound(scopes: Seq<Frame>, at: usize, name: Seq<char>)
    ensures
        locate(scopes, at, name) matches Some((s, i)) ==> s <= at && s < scopes.len() && 0 <= i
            < scopes[s as int].bindings.len() && scopes[s as int].bindings[i].name == name,
    decreases at,
{
    if at < scopes.len() {
        lemma_find_first(scopes[at as int].bindings, name, 0);
        if find(scopes[at as int].bindings, name) is None {
            match outer(scopes, at) {
                Some(p) => {
                    lemma_locate_is_bound(scopes, p, name);
                },
                None => {},
            }
        }
    }
}

/// What is defined in a scope is what a lookup from that scope finds.
pub proof fn lemma_define_then_get(scopes: Seq<Frame>, at: usize, b: Bound)
    requires
        at < scopes.len(),
    ensures
        lookup(define_in(scopes, at, b), at, b.name) == Some(b.value),
{
    lemma_put_is_found(scopes[at as int].bindings, b);
}

/// Defining a name in an inner scope shadows: seen from any scope that was
/// made before it, every name is bound as it was.
pub proof fn lemma_define_inside_keeps_outside(
    scopes: Seq<Frame>,
    at: usize,
    b: Bound,
    from: usize,
    name: Seq<char>,
)
    requires
        from < at < scopes.len(),
    ensures
        lookup(define_in(scopes, at, b), from, name) == lookup(scopes, from, name),
{
    let after = define_in(scopes, at, b);
    assert(same_chain(scopes, after, from));
    lemma_locate_by_names(scopes, after, from, name);
    lemma_locate_is_bound(scopes, from, name);
}

/// Defining one name leaves every other name as it was, from wherever it
/// is seen.
pub proof fn lemma_define_keeps_others(
    scopes: Seq<Frame>,
    at: usize,
    b: Bound,
    from: usize,
    name: Seq<char>,
)
    requires
        at < scopes.len(),
        name != b.name,
    ensures
        lookup(define_in(scopes, at, b), from, name) == lookup(scopes, from, name),
    decreases from,
{
    let after = define_in(scopes, at, b);
    if from < scopes.len() {
        lemma_put_keeps_others(scopes[at as int].bindings, b, name);
        if find(scopes[from as int].bindings, name) is None {
            match outer(scopes, from) {
                Some(p) => {
                    lemma_define_keeps_others(scopes, at, b, p, name);
                },
                None => {},
            }
        }
    }
}

/// A fresh scope sees what the scope around it sees.
pub proof fn lemma_enclosed_sees_outer(scopes: Seq<Frame>, at: usize, name: Seq<char>)
    requires
        at < scopes.len() < usize::MAX,
    ensures
        lookup(enclose_in(scopes, at), scopes.len() as usize, name) == lookup(scopes, at, name),
{
    let after = enclose_in(scopes, at);
    let fresh = scopes.len() as usize;
    assert(same_chain(scopes, after, at));
    lemma_locate_by_names(scopes, after, at, name);
    lemma_locate_is_bound(scopes, at, name);
    assert(after[fresh as int].bindings =~= Seq::empty());
    assert(outer(after, fresh) == Some(at));
}

/// An assignment is seen from every scope that reaches the binding: if a
/// name means the same binding from `from` as from `at`, then after an
/// assignment made at `at` a lookup from `from` gives the new value. This
/// is why a function sees what was assigned after it was made.
pub proof fn lemma_assign_is_shared(
    scopes: Seq<Frame>,
    at: usize,
    from: usize,
    name: Seq<char>,
    value: Value,
)
    requires
        locate(scopes, at, name) is Some,
        locate(scopes, from, name) == locate(scopes, at, name),
    ensures
        assign_in(scopes, at, name, value) matches Some(after) && lookup(after, from, name) == Some(
            value,
        ),
{
    lemma_locate_is_bound(scopes, at, name);
    let after = assign_in(scopes, at, name, value)->0;
    let (s, i) = locate(scopes, at, name)->0;
    assert(same_chain(scopes, after, from)) by {
        assert forall|k: int| 0 <= k <= from && k < scopes.len() implies k < after.len() && (
        #[trigger] after[k]).parent == scopes[k].parent && after[k].bindings.len()
            == scopes[k].bindings.len() && forall|j: int|
            0 <= j < scopes[k].bindings.len() ==> (#[trigger] after[k].bindings[j]).name
                == scopes[k].bindings[j].name by {
            if k == s {
                assert forall|j: int| 0 <= j < scopes[k].bindings.len() implies (
                #[trigger] after[k].bindings[j]).name == scopes[k].bindings[j].name by {
                    if j == i {
                    }
                }
            }
        }
    }
    lemma_locate_is_bound(scopes, from, name);
    lemma_locate_by_names(scopes, after, from, name);
}

/// An assignment keeps the visibility and the record of the binding.
pub proof fn lemma_assign_keeps_visibility(scopes: Seq<Frame>, at: usize, name: Seq<char>, value: Value)
    ensures
        match (locate(scopes, at, name), assign_in(scopes, at, name, value)) {
            (Some((s, i)), Some(after)) => {
                &&& after[s as int].bindings[i].is_pub == scopes[s as int].bindings[i].is_pub
                &&& after[s as int].bindings[i].kind == scopes[s as int].bindings[i].kind
                &&& after[s as int].bindings[i].name == name
            },
            (None, None) => true,
            _ => false,
        },
{
    lemma_locate_is_bound(scopes, at, name);
}

impl<'a> Scope<'a> {
    /// The place of `name` among the scope's bindings.
    pub fn find(&self, name: &String) -> (r: Option<usize>)
        ensures
            match r {
                Some(i) => find(self@.bindings, name@) == Some(i as int) && i < self.bindings@.len(),
                None => find(self@.bindings, name@) is None,
            },
    {
        let mut i: usize = 0;
        while i < self.bindings.len()
            invariant
                i <= self.bindings@.len(),
                find(self@.bindings, name@) == find_from(self@.bindings, name@, i as int),
            decreases self.bindings@.len() - i,
        {
            if self.bindings[i].name == *name {
                return Some(i);
            }
            i = i + 1;
        }
        None
    }

    /// Binds `b.name` to `b`, in place of an earlier binding of that name.
    pub fn put(&mut self, b: Binding<'a>)
        ensures
            final(self)@ == (Frame { bindings: put(old(self)@.bindings, b@), parent: old(self).parent }),
            distinct(old(self)@.bindings) ==> distinct(final(self)@.bindings),
    {
        proof {
            if distinct(self@.bindings) {
                lemma_put_keeps_distinct(self@.bindings, b@);
            }
        }
        match self.find(&b.name) {
            Some(i) => {
                self.bindings.set(i, b);
            },
            None => {
                self.bindings.push(b);
            },
        }
        assert(self@.bindings =~= put(old(self)@.bindings, b@));
    }
}

impl<'a> Env<'a> {
    /// A store that holds one empty scope, the root, under handle 0.
    pub fn new() -> (env: Env<'a>)
        ensures
            env@ == seq![Frame { bindings: Seq::empty(), parent: None }],
            tidy(env@),
    {
        let mut scopes: Vec<Scope<'a>> = Vec::new();
        scopes.push(Scope { bindings: Vec::new(), parent: None });
        let env = Env { scopes };
        assert(env@ =~= seq![Frame { bindings: Seq::empty(), parent: None }]) by {
            assert(env@[0].bindings =~= Seq::empty());
        }
        env
    }

    /// Makes a fresh scope inside `at` and returns its handle.
    pub fn enclose(&mut self, at: usize) -> (handle: usize)
        ensures
            final(self)@ == enclose_in(old(self)@, at),
            handle == old(self)@.len(),
            tidy(old(self)@) ==> tidy(final(self)@),
    {
        proof {
            if tidy(self@) {
                lemma_enclose_keeps_tidy(self@, at);
            }
        }
        let handle = self.scopes.len();
        self.scopes.push(Scope { bindings: Vec::new(), parent: Some(at) });
        assert(self@ =~= enclose_in(old(self)@, at)) by {
            assert(self@[handle as int].bindings =~= Seq::empty());
        }
        handle
    }

    fn bind(&mut self, at: usize, b: Binding<'a>)
        requires
            at < old(self)@.len(),
        ensures
            final(self)@ == define_in(old(self)@, at, b@),
            tidy(old(self)@) ==> tidy(final(self)@),
    {
        proof {
            if tidy(self@) {
                lemma_define_keeps_tidy(self@, at, b@);
            }
        }
        self.scopes[at].put(b);
        assert(self@ =~= define_in(old(self)@, at, b@));
    }

    /// Binds `name` in scope `at`, private to it.
    pub fn define(&mut self, at: usize, name: String, value: LiteralType<'a>)
        requires
            at < old(self)@.len(),
        ensures
            final(self)@ == define_in(
                old(self)@,
                at,
                Bound { name: name@, value: value@, is_pub: false, kind: None },
            ),
            tidy(old(self)@) ==> tidy(final(self)@),
    {
        self.bind(at, Binding { name, value, is_pub: false, kind: None });
    }

    /// Binds `name` in scope `at` and marks the binding public.
    pub fn define_pub(&mut self, at: usize, name: String, value: LiteralType<'a>)
        requires
            at < old(self)@.len(),
        ensures
            final(self)@ == define_in(
                old(self)@,
                at,
                Bound { name: name@, value: value@, is_pub: true, kind: None },
            ),
            tidy(old(self)@) ==> tidy(final(self)@),
    {
        self.bind(at, Binding { name, value, is_pub: true, kind: None });
    }

    /// Binds a host function in scope `at`: public, with its registration
    /// record.
    pub fn define_pub_func(&mut self, at: usize, name: String, value: LiteralType<'a>, kind: FuncKind)
        requires
            at < old(self)@.len(),
        ensures
            final(self)@ == define_in(
                old(self)@,
                at,
                Bound { name: name@, value: value@, is_pub: true, kind: Some(kind@) },
            ),
            tidy(old(self)@) ==> tidy(final(self)@),
    {
        self.bind(at, Binding { name, value, is_pub: true, kind: Some(kind) });
    }

    /// The scope around `at`, if a link leads outward from it.
    pub fn outer(&self, at: usize) -> (r: Option<usize>)
        ensures
            r == outer(self@, at),
    {
        if at < self.scopes.len() {
            match self.scopes[at].parent {
                Some(p) => if p < at {
                    Some(p)
                } else {
                    None
                },
                None => None,
            }
        } else {
            None
        }
    }

    /// Where `name` is bound as seen from `at`.
    pub fn locate(&self, at: usize, name: &String) -> (r: Option<(usize, usize)>)
        ensures
            match r {
                Some((s, i)) => locate(self@, at, name@) == Some((s, i as int)) && s < self@.len()
                    && i < self@[s as int].bindings.len(),
                None => locate(self@, at, name@) is None,
            },
    {
        let mut cur: usize = at;
        loop
            invariant
                locate(self@, at, name@) == locate(self@, cur, name@),
            decreases cur,
        {
            if cur >= self.scopes.len() {
                return None;
            }
            match self.scopes[cur].find(name) {
                Some(i) => {
                    return Some((cur, i));
                },
                None => {},
            }
            match self.outer(cur) {
                Some(p) => {
                    cur = p;
                },
                None => {
                    return None;
                },
            }
        }
    }

    /// The value of `name` as seen from `at`, searching outward.
    pub fn get(&self, at: usize, name: &String) -> (r: Result<LiteralType<'a>, Error>)
        ensures
            match r {
                Ok(v) => lookup(self@, at, name@) == Some(v@),
                Err(e) => lookup(self@, at, name@) is None && e@ == unbound(name@),
            },
    {
        match self.locate(at, name) {
            Some((s, i)) => Ok(self.scopes[s].bindings[i].value.copy()),
            None => Err(Error::with_arg(ErrorCode::E0x306, 0, (0, 0), name.clone())),
        }
    }

    /// The scope `depth` steps outward from `at`.
    pub fn ancestor(&self, at: usize, depth: usize) -> (r: Option<usize>)
        ensures
            r == ancestor(self@, at, depth as nat),
            r matches Some(s) ==> s < self@.len(),
    {
        let mut cur: usize = at;
        let mut left: usize = depth;
        loop
            invariant
                ancestor(self@, at, depth as nat) == ancestor(self@, cur, left as nat),
            decreases left,
        {
            if cur >= self.scopes.len() {
                return None;
            }
            if left == 0 {
                return Some(cur);
            }
            match self.outer(cur) {
                Some(p) => {
                    cur = p;
                    left = left - 1;
                },
                None => {
                    return None;
                },
            }
        }
    }

    /// The value of `name` in the scope exactly `depth` steps outward from
    /// `at`.
    pub fn get_at(&self, at: usize, depth: usize, name: &String) -> (r: Result<LiteralType<'a>, Error>)
        ensures
            match r {
                Ok(v) => lookup_at(self@, at, depth as nat, name@) == Some(v@),
                Err(e) => lookup_at(self@, at, depth as nat, name@) is None && e@ == unbound(name@),
            },
    {
        match self.ancestor(at, depth) {
            Some(s) => match self.scopes[s].find(name) {
                Some(i) => Ok(self.scopes[s].bindings[i].value.copy()),
                None => Err(Error::with_arg(ErrorCode::E0x306, 0, (0, 0), name.clone())),
            },
            None => Err(Error::with_arg(ErrorCode::E0x306, 0, (0, 0), name.clone())),
        }
    }

    /// Overwrites the nearest binding of `name` as seen from `at`. Its
    /// visibility stays. Fails, and changes nothing, where the name is bound
    /// nowhere.
    pub fn assign(&mut self, at: usize, name: &String, value: LiteralType<'a>) -> (r: Result<
        (),
        Error,
    >)
        ensures
            match r {
                Ok(_) => assign_in(old(self)@, at, name@, value@) == Some(final(self)@)
                    && final(self)@.len() == old(self)@.len(),
                Err(e) => assign_in(old(self)@, at, name@, value@) is None && e@ == unbound(name@)
                    && final(self)@ == old(self)@,
            },
            tidy(old(self)@) ==> tidy(final(self)@),
    {
        proof {
            if tidy(self@) {
                lemma_assign_keeps_tidy(self@, at, name@, value@);
            }
        }
        match self.locate(at, name) {
            Some((s, i)) => {
                self.scopes[s].bindings[i].value = value;
                assert(self@ =~= assign_in(old(self)@, at, name@, value@)->0) by {
                    assert(self@[s as int].bindings =~= old(self)@[s as int].bindings.update(
                        i as int,
                        self@[s as int].bindings[i as int],
                    ));
                }
                Ok(())
            },
            None => Err(Error::with_arg(ErrorCode::E0x306, 0, (0, 0), name.clone())),
        }
    }
}

} // verus!
