//! Lexical scopes: which name stands for which place on the stack.

use crate::text::same_text;
use vstd::prelude::*;

verus! {

/// The names that one scope binds and how many values it has pushed.
pub struct ScopeView {
    /// Each name with the number of values that the scope had pushed before
    /// it. Where a name occurs twice, the later binding counts.
    pub names: Seq<(Seq<char>, usize)>,
    /// How many values the scope has pushed.
    pub depth: usize,
}

/// Where the latest binding of `id` in `names` lies.
pub open spec fn bound_at(names: Seq<(Seq<char>, usize)>, id: Seq<char>) -> Option<usize>
    decreases names.len(),
{
    if names.len() == 0 {
        None
    } else if names.last().0 == id {
        Some(names.last().1)
    } else {
        bound_at(names.drop_last(), id)
    }
}

/// How many values all the scopes together have pushed.
pub open spec fn total_depth(env: Seq<ScopeView>) -> nat
    decreases env.len(),
{
    if env.len() == 0 {
        0
    } else {
        total_depth(env.drop_last()) + env.last().depth as nat
    }
}

/// How far below the top of the stack the value of `id` lies, counted from
/// one, with the scopes given from the outermost to the innermost. The
/// innermost scope that binds the name decides: the depths of the scopes
/// inside it are added to the place of the binding in it. Zero means that no
/// scope binds the name.
pub open spec fn depth_of(env: Seq<ScopeView>, id: Seq<char>) -> nat
    decreases env.len(),
{
    if env.len() == 0 {
        0
    } else {
        match bound_at(env.last().names, id) {
            Some(at) => (env.last().depth - at) as nat,
            None => if depth_of(env.drop_last(), id) == 0 {
                0
            } else {
                env.last().depth as nat + depth_of(env.drop_last(), id)
            },
        }
    }
}

/// Whether one of the scopes binds the name `id`.
pub open spec fn binds_name(env: Seq<ScopeView>, id: Seq<char>) -> bool {
    exists|i: int| 0 <= i < env.len() && bound_at((#[trigger] env[i]).names, id) is Some
}

/// Whether every binding of every scope lies within its scope: the scope had
/// pushed fewer values before the binding than it has pushed now.
pub open spec fn scopes_well_formed(env: Seq<ScopeView>) -> bool {
    forall|i: int, j: int|
        0 <= i < env.len() && 0 <= j < env[i].names.len() ==> (#[trigger] env[i].names[j]).1
            < env[i].depth
}

/// A name has the depth zero if and only if no scope binds it.
pub proof fn unbound_is_zero(env: Seq<ScopeView>, id: Seq<char>)
    requires
        scopes_well_formed(env),
    ensures
        depth_of(env, id) == 0 <==> !binds_name(env, id),
    decreases env.len(),
{
    if env.len() > 0 {
        let outer = env.drop_last();
        let last = env.len() - 1;
        assert forall|i: int, j: int|
            0 <= i < outer.len() && 0 <= j < outer[i].names.len() implies (
            #[trigger] outer[i].names[j]).1 < outer[i].depth by {
            assert(outer[i] == env[i]);
            assert(env[i].names[j].1 < env[i].depth);
        }
        unbound_is_zero(outer, id);
        match bound_at(env.last().names, id) {
            Some(at) => {
                bound_at_is_binding(env.last().names, id);
                let j = choose|j: int|
                    0 <= j < env.last().names.len() && (#[trigger] env.last().names[j]).1 == at;
                assert(env[last].names[j].1 < env[last].depth);
                assert(bound_at(env[last].names, id) is Some);
            },
            None => {
                if binds_name(outer, id) {
                    let i = choose|i: int|
                        0 <= i < outer.len() && bound_at((#[trigger] outer[i]).names, id) is Some;
                    assert(env[i] == outer[i]);
                }
                if binds_name(env, id) {
                    let i = choose|i: int|
                        0 <= i < env.len() && bound_at((#[trigger] env[i]).names, id) is Some;
                    assert(i < last);
                    assert(outer[i] == env[i]);
                }
            },
        }
    }
}

/// The scopes with one more, empty scope inside them.
pub open spec fn nested(env: Seq<ScopeView>) -> Seq<ScopeView> {
    env.push(ScopeView { names: Seq::empty(), depth: 0 })
}

/// The scopes after the innermost one has bound `id` to the value that is
/// pushed next.
pub open spec fn bound(env: Seq<ScopeView>, id: Seq<char>) -> Seq<ScopeView> {
    env.update(
        env.len() - 1,
        ScopeView {
            names: env.last().names.push((id, env.last().depth)),
            depth: (env.last().depth + 1) as usize,
        },
    )
}

/// Whether the scopes can hold one more value: depths are counted in `usize`.
pub open spec fn has_room(env: Seq<ScopeView>) -> bool {
    total_depth(env) < usize::MAX
}

/// The scopes at the start of a script: one scope that binds nothing.
pub open spec fn root_scopes() -> Seq<ScopeView> {
    seq![ScopeView { names: Seq::empty(), depth: 0 }]
}

/// The contents of the bindings of one scope.
pub open spec fn names_view(names: Seq<(String, usize)>) -> Seq<(Seq<char>, usize)> {
    Seq::new(names.len(), |i: int| (names[i].0@, names[i].1))
}

/// One lexical scope and the scopes around it.
pub struct Env<'a> {
    parent: Option<&'a Env<'a>>,
    values: Vec<(String, usize)>,
    depth: usize,
    /// How many values the scopes around this one have pushed.
    below: usize,
}

impl<'a> Env<'a> {
    /// The scopes from the outermost to this one.
    pub closed spec fn view(&self) -> Seq<ScopeView>
        decreases self,
    {
        let scope = ScopeView { names: names_view(self.values@), depth: self.depth };
        match self.parent {
            Some(parent) => parent.view().push(scope),
            None => seq![scope],
        }
    }

    /// Whether every binding lies within its scope and the depths of all the
    /// scopes together fit a `usize`.
    pub closed spec fn well_formed(&self) -> bool
        decreases self,
    {
        &&& forall|i: int| 0 <= i < self.values@.len() ==> (#[trigger] self.values@[i]).1 < self.depth
        &&& self.below + self.depth <= usize::MAX
        &&& match self.parent {
            Some(parent) => parent.well_formed() && self.below == total_depth(parent.view()),
            None => self.below == 0,
        }
    }

    /// The outermost scope, which binds nothing yet.
    pub fn new() -> (env: Env<'a>)
        ensures
            env.well_formed(),
            env@ == root_scopes(),
    {
        let env = Env { parent: None, values: Vec::new(), depth: 0, below: 0 };
        assert(names_view(env.values@) =~= Seq::empty());
        env
    }

    /// A scope inside this one, which binds nothing yet.
    pub fn nest(&'a self) -> (env: Env<'a>)
        requires
            self.well_formed(),
        ensures
            env.well_formed(),
            env@ == nested(self@),
            total_depth(env@) == total_depth(self@),
            env@.last().depth == 0,
    {
        proof {
            self.total_is_sum();
        }
        let env = Env {
            parent: Some(self),
            values: Vec::new(),
            depth: 0,
            below: self.below + self.depth,
        };
        assert(names_view(env.values@) =~= Seq::empty());
        proof {
            env.total_is_sum();
        }
        env
    }

    /// The depths of the scopes add up to what the scope keeps count of.
    proof fn total_is_sum(&self)
        requires
            self.well_formed(),
        ensures
            total_depth(self@) == self.below + self.depth,
            self@.len() >= 1,
            self@.last() == (ScopeView { names: names_view(self.values@), depth: self.depth }),
            self.parent matches Some(parent) ==> self@.drop_last() == parent@ && parent@.len() >= 1,
            self.parent is None ==> self@.len() == 1,
        decreases self,
    {
        match self.parent {
            Some(parent) => {
                parent.total_is_sum();
                let scope = ScopeView { names: names_view(self.values@), depth: self.depth };
                assert(self@ == parent@.push(scope));
                assert(self@.drop_last() =~= parent@);
                assert(self@.last() == scope);
                assert(total_depth(self@) == total_depth(self@.drop_last()) + self@.last().depth);
            },
            None => {
                assert(self@.drop_last() =~= Seq::empty());
                assert(total_depth(self@.drop_last()) == 0);
                assert(total_depth(self@) == total_depth(self@.drop_last()) + self@.last().depth);
            },
        }
    }

    /// How many values this scope has pushed.
    pub fn depth(&self) -> (d: usize)
        requires
            self.well_formed(),
        ensures
            self@.len() >= 1,
            d == self@.last().depth,
    {
        proof {
            self.total_is_sum();
        }
        self.depth
    }

    /// Whether the scopes can hold one more value.
    pub fn has_room(&self) -> (b: bool)
        requires
            self.well_formed(),
        ensures
            b == has_room(self@),
    {
        proof {
            self.total_is_sum();
        }
        self.below < usize::MAX - self.depth
    }

    /// Binds `id` to the value that is pushed next.
    pub fn bind(&mut self, id: String)
        requires
            old(self).well_formed(),
            has_room(old(self)@),
        ensures
            final(self).well_formed(),
            final(self)@ == bound(old(self)@, id@),
            total_depth(final(self)@) == total_depth(old(self)@) + 1,
    {
        proof {
            self.total_is_sum();
        }
        let ghost before = names_view(self.values@);
        self.values.push((id, self.depth));
        self.depth = self.depth + 1;
        proof {
            assert(names_view(self.values@) =~= before.push((id@, old(self).depth)));
            assert(self@ =~= bound(old(self)@, id@));
            self.total_is_sum();
        }
    }

    /// Where the latest binding of `id` in this scope lies.
    fn find(&self, id: &str) -> (r: Option<usize>)
        ensures
            r == bound_at(names_view(self.values@), id@),
    {
        let ghost names = names_view(self.values@);
        let mut i: usize = self.values.len();
        assert(names.take(i as int) =~= names);
        while i > 0
            invariant
                i <= self.values.len(),
                names == names_view(self.values@),
                bound_at(names, id@) == bound_at(names.take(i as int), id@),
            decreases i,
        {
            let ghost head = names.take(i as int);
            assert(head.last() == names[i - 1]);
            assert(head.drop_last() =~= names.take(i - 1));
            if same_text(self.values[i - 1].0.as_str(), id) {
                return Some(self.values[i - 1].1);
            }
            i -= 1;
        }
        None
    }

    /// The scopes of a well-formed chain are well-formed.
    proof fn scopes_are_well_formed(&self)
        requires
            self.well_formed(),
        ensures
            scopes_well_formed(self@),
        decreases self,
    {
        self.total_is_sum();
        let env = self@;
        let last = env.len() - 1;
        match self.parent {
            Some(parent) => {
                parent.scopes_are_well_formed();
                assert forall|i: int, j: int|
                    0 <= i < env.len() && 0 <= j < env[i].names.len() implies (
                    #[trigger] env[i].names[j]).1 < env[i].depth by {
                    if i < last {
                        assert(env[i] == parent@[i]);
                        assert(parent@[i].names[j].1 < parent@[i].depth);
                    } else {
                        assert(env[i].names[j] == (self.values@[j].0@, self.values@[j].1));
                    }
                }
            },
            None => {
                assert forall|i: int, j: int|
                    0 <= i < env.len() && 0 <= j < env[i].names.len() implies (
                    #[trigger] env[i].names[j]).1 < env[i].depth by {
                    assert(env[i].names[j] == (self.values@[j].0@, self.values@[j].1));
                }
            },
        }
    }

    /// How far below the top of the stack the value of `id` lies, counted
    /// from one; zero if and only if no scope of the chain binds the name.
    pub fn get_depth(&self, id: &String) -> (d: usize)
        requires
            self.well_formed(),
        ensures
            d == depth_of(self@, id@),
            d == 0 <==> !binds_name(self@, id@),
            d <= total_depth(self@),
        decreases self,
    {
        proof {
            self.total_is_sum();
            self.scopes_are_well_formed();
            unbound_is_zero(self@, id@);
        }
        match self.find(id.as_str()) {
            Some(at) => {
                proof {
                    bound_at_is_binding(names_view(self.values@), id@);
                }
                self.depth - at
            },
            None => match self.parent {
                Some(parent) => {
                    proof {
                        parent.total_is_sum();
                    }
                    let outer = parent.get_depth(id);
                    if outer == 0 {
                        0
                    } else {
                        self.depth + outer
                    }
                },
                None => 0,
            },
        }
    }
}

/// What `bound_at` finds is the place of one of the bindings.
proof fn bound_at_is_binding(names: Seq<(Seq<char>, usize)>, id: Seq<char>)
    requires
        bound_at(names, id) is Some,
    ensures
        exists|i: int| 0 <= i < names.len() && (#[trigger] names[i]).1 == bound_at(names, id)->0,
    decreases names.len(),
{
    if names.last().0 == id {
        assert(names[names.len() - 1].1 == bound_at(names, id)->0);
    } else {
        bound_at_is_binding(names.drop_last(), id);
        let i = choose|i: int|
            0 <= i < names.drop_last().len() && (#[trigger] names.drop_last()[i]).1 == bound_at(
                names.drop_last(),
                id,
            )->0;
        assert(names[i] == names.drop_last()[i]);
    }
}

} // verus!
