use vstd::prelude::*;

use crate::text::{append_str, chars_eq, decimal, str_to_chars, str_to_string, usize_to_string};
use crate::token::{Token, TokenView};

verus! {

/// A handle on one environment of an [`Environment`] store.
pub type EnvRef = usize;

/// An error raised while running a program: the token where it happened and
/// a message.
#[derive(Debug)]
pub struct RuntimeError {
    pub token: Token,
    pub message: String,
}

/// The message for a variable that no environment on the chain defines.
pub open spec fn undefined_message(name: Seq<char>) -> Seq<char> {
    "Undefined variable '"@ + name + "'."@
}

/// The message for a property that an instance does not have.
pub open spec fn undefined_property_message(name: Seq<char>) -> Seq<char> {
    "Undefined property '"@ + name + "'."@
}

/// The message for a call with the wrong number of arguments.
pub open spec fn arity_message(arity: nat, got: nat) -> Seq<char> {
    "Expected "@ + decimal(arity) + " arguments but got "@ + decimal(got) + "."@
}

/// Checks the number of arguments of a call against the callee's arity: an
/// error at the call's closing parenthesis where they differ.
pub fn check_arity(paren: &Token, arity: usize, got: usize) -> (r: Result<(), RuntimeError>)
    ensures
        match r {
            Ok(()) => arity == got,
            Err(e) => arity != got && e.token@ == paren@ && e.message@ == arity_message(arity as nat, got as nat),
        },
{
    if arity == got {
        return Ok(());
    }
    let mut message = str_to_string("Expected ");
    append_str(&mut message, usize_to_string(arity).as_str());
    append_str(&mut message, " arguments but got ");
    append_str(&mut message, usize_to_string(got).as_str());
    append_str(&mut message, ".");
    Err(RuntimeError { token: paren.clone(), message })
}

/// The model of one environment: the environment around it (if any) and the
/// values of the names it defines.
pub struct FrameView<V> {
    pub enclosing: Option<nat>,
    pub values: Map<Seq<char>, V>,
}

struct Frame<V> {
    enclosing: Option<usize>,
    values: Vec<(Vec<char>, V)>,
}

/// The names of a frame with their values; a later entry for a name
/// overrides an earlier one.
pub open spec fn values_map<V>(entries: Seq<(Vec<char>, V)>) -> Map<Seq<char>, V>
    decreases entries.len(),
{
    if entries.len() == 0 {
        Map::empty()
    } else {
        values_map(entries.drop_last()).insert(entries.last().0@, entries.last().1)
    }
}

spec fn frame_view<V>(f: Frame<V>) -> FrameView<V> {
    FrameView {
        enclosing: match f.enclosing {
            Some(p) => Some(p as nat),
            None => None,
        },
        values: values_map(f.values@),
    }
}

/// Every environment encloses only environments made before it, so that each
/// chain of enclosing environments ends.
pub open spec fn chains_end<V>(frames: Seq<FrameView<V>>) -> bool {
    forall|i: int|
        0 <= i < frames.len() ==> match (#[trigger] frames[i]).enclosing {
            Some(p) => p < i,
            None => true,
        }
}

/// The value of `name` seen from environment `env`: its own value if it
/// defines the name, else the value seen from the environment around it.
pub open spec fn lookup<V>(frames: Seq<FrameView<V>>, env: int, name: Seq<char>) -> Option<V>
    decreases env,
{
    if 0 <= env < frames.len() {
        if frames[env].values.contains_key(name) {
            Some(frames[env].values[name])
        } else {
            match frames[env].enclosing {
                Some(p) => if p < env {
                    lookup(frames, p as int, name)
                } else {
                    None
                },
                None => None,
            }
        }
    } else {
        None
    }
}

/// The environment that defines the `name` seen from `env`, if any.
pub open spec fn owner<V>(frames: Seq<FrameView<V>>, env: int, name: Seq<char>) -> Option<int>
    decreases env,
{
    if 0 <= env < frames.len() {
        if frames[env].values.contains_key(name) {
            Some(env)
        } else {
            match frames[env].enclosing {
                Some(p) => if p < env {
                    owner(frames, p as int, name)
                } else {
                    None
                },
                None => None,
            }
        }
    } else {
        None
    }
}

/// The environment `distance` steps out from `env`, if the chain is that long.
pub open spec fn ancestor<V>(frames: Seq<FrameView<V>>, env: int, distance: nat) -> Option<int>
    decreases distance,
{
    if !(0 <= env < frames.len()) {
        None
    } else if distance == 0 {
        Some(env)
    } else {
        match frames[env].enclosing {
            Some(p) => ancestor(frames, p as int, (distance - 1) as nat),
            None => None,
        }
    }
}

/// The environments after `name` is bound to `value` in environment `env`.
pub open spec fn bind<V>(frames: Seq<FrameView<V>>, env: int, name: Seq<char>, value: V) -> Seq<FrameView<V>> {
    frames.update(env, FrameView { values: frames[env].values.insert(name, value), ..frames[env] })
}

/// A store of environments. Each environment holds the variables of one
/// scope and knows the environment around it; the first one made is the
/// global environment.
pub struct Environment<V> {
    frames: Vec<Frame<V>>,
}

impl<V> View for Environment<V> {
    type V = Seq<FrameView<V>>;

    closed spec fn view(&self) -> Seq<FrameView<V>> {
        self.frames@.map_values(|f: Frame<V>| frame_view(f))
    }
}

proof fn lemma_values_skip<V>(e: Seq<(Vec<char>, V)>, j: int, key: Seq<char>)
    requires
        0 <= j <= e.len(),
        forall|k: int| j <= k < e.len() ==> (#[trigger] e[k]).0@ != key,
    ensures
        values_map(e).contains_key(key) == values_map(e.subrange(0, j)).contains_key(key),
        values_map(e).contains_key(key) ==> values_map(e)[key] == values_map(e.subrange(0, j))[key],
    decreases e.len() - j,
{
    if j < e.len() {
        let d = e.drop_last();
        assert forall|k: int| j <= k < d.len() implies (#[trigger] d[k]).0@ != key by {
            assert(d[k] == e[k]);
        }
        lemma_values_skip(d, j, key);
        assert(d.subrange(0, j) =~= e.subrange(0, j));
    } else {
        assert(e.subrange(0, j) =~= e);
    }
}

/// Finds the last entry of `entries` for `name`.
pub(crate) fn find_entry<V>(entries: &Vec<(Vec<char>, V)>, name: &[char]) -> (r: Option<usize>)
    ensures
        match r {
            Some(j) => j < entries@.len() && entries@[j as int].0@ == name@ && values_map(
                entries@,
            ).contains_key(name@) && values_map(entries@)[name@] == entries@[j as int].1,
            None => !values_map(entries@).contains_key(name@),
        },
{
    let mut j = entries.len();
    while j > 0
        invariant
            j <= entries@.len(),
            forall|k: int| j <= k < entries@.len() ==> (#[trigger] entries@[k]).0@ != name@,
        decreases j,
    {
        if chars_eq(entries[j - 1].0.as_slice(), name) {
            proof {
                lemma_values_skip(entries@, j as int, name@);
                assert(entries@.subrange(0, j as int).drop_last() =~= entries@.subrange(0, j - 1));
            }
            return Some(j - 1);
        }
        j = j - 1;
    }
    proof {
        lemma_values_skip(entries@, 0, name@);
    }
    None
}

/// "Undefined variable 'name'." for the token `name`.
fn undefined(name: &Token) -> (e: RuntimeError)
    ensures
        e.token@ == name@,
        e.message@ == undefined_message(name@.lexeme),
{
    let mut message = str_to_string("Undefined variable '");
    append_str(&mut message, name.lexeme());
    append_str(&mut message, "'.");
    RuntimeError { token: name.clone(), message }
}

impl<V> Environment<V> {
    /// The well-formedness of the store: each environment encloses only an
    /// environment made before it.
    pub closed spec fn wf(&self) -> bool {
        chains_end(self@)
    }

    /// A store that holds the global environment alone, with no variables;
    /// its handle is [`Environment::global`].
    pub fn new() -> (r: Environment<V>)
        ensures
            r.wf(),
            r@ == seq![FrameView::<V> { enclosing: None, values: Map::empty() }],
    {
        let mut frames: Vec<Frame<V>> = Vec::new();
        frames.push(Frame { enclosing: None, values: Vec::new() });
        let r = Environment { frames };
        assert(r@ =~= seq![FrameView::<V> { enclosing: None, values: Map::empty() }]);
        r
    }

    /// Whether `env` is a handle of this store.
    pub fn contains(&self, env: EnvRef) -> (r: bool)
        ensures
            r == (env < self@.len()),
    {
        assert(self@.len() == self.frames@.len());
        env < self.frames.len()
    }

    /// The handle of the global environment.
    pub fn global(&self) -> (r: EnvRef)
        ensures
            r == 0,
    {
        0
    }

    /// A new environment, with no variables, inside `enclosing`.
    pub fn new_enclosed(&mut self, enclosing: EnvRef) -> (r: EnvRef)
        requires
            old(self).wf(),
            enclosing < old(self)@.len(),
        ensures
            final(self).wf(),
            r == old(self)@.len(),
            final(self)@ == old(self)@.push(FrameView { enclosing: Some(enclosing as nat), values: Map::empty() }),
    {
        let r = self.frames.len();
        self.frames.push(Frame { enclosing: Some(enclosing), values: Vec::new() });
        assert(self@ =~= old(self)@.push(FrameView { enclosing: Some(enclosing as nat), values: Map::empty() }));
        r
    }

    /// The environment directly around `env`, if any.
    pub fn enclosing(&self, env: EnvRef) -> (r: Option<EnvRef>)
        requires
            env < self@.len(),
        ensures
            match r {
                Some(p) => self@[env as int].enclosing == Some(p as nat),
                None => self@[env as int].enclosing is None,
            },
    {
        self.frames[env].enclosing
    }

    /// Binds `name` to `value` in environment `env`, replacing any value it
    /// had there.
    pub fn define(&mut self, env: EnvRef, name: &Token, value: V)
        requires
            old(self).wf(),
            env < old(self)@.len(),
        ensures
            final(self).wf(),
            final(self)@ == bind(old(self)@, env as int, name@.lexeme, value),
    {
        let ghost old_frames = self.frames@;
        let mut frame = self.frames.remove(env);
        let ghost before = frame.values@;
        frame.values.push((str_to_chars(name.lexeme()), value));
        proof {
            assert(frame.values@.drop_last() =~= before);
        }
        self.frames.insert(env, frame);
        assert(self.frames@ =~= old_frames.update(env as int, frame));
        assert(self@ =~= bind(old(self)@, env as int, name@.lexeme, value));
    }
}

impl<V: Clone> Environment<V> {
    /// The value of `name` seen from `env`: looked up in `env`, then in each
    /// environment around it in turn.
    pub fn get(&self, env: EnvRef, name: &Token) -> (r: Result<V, RuntimeError>)
        requires
            self.wf(),
            env < self@.len(),
        ensures
            match r {
                Ok(v) => lookup(self@, env as int, name@.lexeme) matches Some(w) && cloned(w, v),
                Err(e) => lookup(self@, env as int, name@.lexeme) is None && e.token@ == name@
                    && e.message@ == undefined_message(name@.lexeme),
            },
        decreases env,
    {
        let key = str_to_chars(name.lexeme());
        let frame = &self.frames[env];
        assert(self@[env as int] == frame_view(*frame));
        match find_entry(&frame.values, key.as_slice()) {
            Some(j) => Ok(frame.values[j].1.clone()),
            None => match frame.enclosing {
                Some(p) => {
                    assert(p < env);
                    self.get(p, name)
                },
                None => Err(undefined(name)),
            },
        }
    }

    /// The value of `name` seen from the environment `distance` steps out
    /// from `env`.
    pub fn get_at(&self, env: EnvRef, distance: usize, name: &Token) -> (r: Result<V, RuntimeError>)
        requires
            self.wf(),
            env < self@.len(),
        ensures
            match r {
                Ok(v) => ancestor(self@, env as int, distance as nat) matches Some(a) && lookup(
                    self@,
                    a,
                    name@.lexeme,
                ) matches Some(w) && cloned(w, v),
                Err(e) => (match ancestor(self@, env as int, distance as nat) {
                    Some(a) => lookup(self@, a, name@.lexeme) is None,
                    None => true,
                }) && e.token@ == name@ && e.message@ == undefined_message(name@.lexeme),
            },
        decreases distance,
    {
        if distance == 0 {
            self.get(env, name)
        } else {
            assert(self@[env as int] == frame_view(self.frames@[env as int]));
            match self.frames[env].enclosing {
                Some(p) => self.get_at(p, distance - 1, name),
                None => Err(undefined(name)),
            }
        }
    }
}

impl<V> Environment<V> {
    /// Rebinds `name` in the environment that defines it, seen from `env`;
    /// fails if no environment on the chain defines it.
    pub fn assign(&mut self, env: EnvRef, name: &Token, value: V) -> (r: Result<(), RuntimeError>)
        requires
            old(self).wf(),
            env < old(self)@.len(),
        ensures
            final(self).wf(),
            match owner(old(self)@, env as int, name@.lexeme) {
                Some(o) => r is Ok && final(self)@ == bind(old(self)@, o, name@.lexeme, value),
                None => final(self)@ == old(self)@ && (r matches Err(e) && e.token@ == name@
                    && e.message@ == undefined_message(name@.lexeme)),
            },
        decreases env,
    {
        let key = str_to_chars(name.lexeme());
        assert(self@[env as int] == frame_view(self.frames@[env as int]));
        match find_entry(&self.frames[env].values, key.as_slice()) {
            Some(_) => {
                self.define(env, name, value);
                Ok(())
            },
            None => match self.frames[env].enclosing {
                Some(p) => {
                    assert(p < env);
                    self.assign(p, name, value)
                },
                None => Err(undefined(name)),
            },
        }
    }

    /// Rebinds `name` as seen from the environment `distance` steps out from
    /// `env`.
    pub fn assign_at(&mut self, env: EnvRef, distance: usize, name: &Token, value: V) -> (r: Result<(), RuntimeError>)
        requires
            old(self).wf(),
            env < old(self)@.len(),
        ensures
            final(self).wf(),
            match ancestor(old(self)@, env as int, distance as nat) {
                Some(a) => match owner(old(self)@, a, name@.lexeme) {
                    Some(o) => r is Ok && final(self)@ == bind(old(self)@, o, name@.lexeme, value),
                    None => final(self)@ == old(self)@ && (r matches Err(e) && e.token@ == name@
                        && e.message@ == undefined_message(name@.lexeme)),
                },
                None => final(self)@ == old(self)@ && (r matches Err(e) && e.token@ == name@
                    && e.message@ == undefined_message(name@.lexeme)),
            },
        decreases distance,
    {
        if distance == 0 {
            self.assign(env, name, value)
        } else {
            assert(self@[env as int] == frame_view(self.frames@[env as int]));
            match self.frames[env].enclosing {
                Some(p) => self.assign_at(p, distance - 1, name, value),
                None => Err(undefined(name)),
            }
        }
    }
}

// ---------------------------------------------------------------------------
// Laws of environments.
// ---------------------------------------------------------------------------

/// A name defined in an environment is seen there with the value it was
/// given.
pub proof fn law_get_after_define<V>(frames: Seq<FrameView<V>>, env: int, name: Seq<char>, value: V)
    requires
        0 <= env < frames.len(),
    ensures
        lookup(bind(frames, env, name, value), env, name) == Some(value),
{
}

/// Defining one name changes nothing that is seen of another name, from any
/// environment.
pub proof fn law_define_keeps_other_names<V>(
    frames: Seq<FrameView<V>>,
    env: int,
    name: Seq<char>,
    value: V,
    from: int,
    other: Seq<char>,
)
    requires
        0 <= env < frames.len(),
        other != name,
    ensures
        lookup(bind(frames, env, name, value), from, other) == lookup(frames, from, other),
    decreases from,
{
    let after = bind(frames, env, name, value);
    if 0 <= from < frames.len() {
        assert(after[from].values.contains_key(other) == frames[from].values.contains_key(other));
        match frames[from].enclosing {
            Some(p) => if p < from {
                law_define_keeps_other_names(frames, env, name, value, p as int, other);
            },
            None => {},
        }
    }
}

/// Defining a name in an environment changes nothing that is seen from the
/// environments made before it: a variable of an inner scope shadows an
/// outer one without touching it.
pub proof fn law_define_invisible_to_older<V>(
    frames: Seq<FrameView<V>>,
    env: int,
    name: Seq<char>,
    value: V,
    from: int,
    x: Seq<char>,
)
    requires
        0 <= env < frames.len(),
        from < env,
    ensures
        lookup(bind(frames, env, name, value), from, x) == lookup(frames, from, x),
    decreases from,
{
    let after = bind(frames, env, name, value);
    if 0 <= from < frames.len() {
        assert(after[from] == frames[from]);
        match frames[from].enclosing {
            Some(p) => if p < from {
                law_define_invisible_to_older(frames, env, name, value, p as int, x);
            },
            None => {},
        }
    }
}

/// Making a new environment changes nothing that is seen from the
/// environments already there.
pub proof fn law_new_environment_invisible<V>(frames: Seq<FrameView<V>>, f: FrameView<V>, from: int, x: Seq<char>)
    requires
        from < frames.len(),
    ensures
        lookup(frames.push(f), from, x) == lookup(frames, from, x),
    decreases from,
{
    if 0 <= from < frames.len() {
        assert(frames.push(f)[from] == frames[from]);
        match frames[from].enclosing {
            Some(p) => if p < from {
                law_new_environment_invisible(frames, f, p as int, x);
            },
            None => {},
        }
    }
}

proof fn lemma_owner_bound<V>(frames: Seq<FrameView<V>>, env: int, name: Seq<char>)
    ensures
        owner(frames, env, name) matches Some(o) ==> 0 <= o <= env && frames[o].values.contains_key(name),
    decreases env,
{
    if 0 <= env < frames.len() && !frames[env].values.contains_key(name) {
        match frames[env].enclosing {
            Some(p) => if p < env {
                lemma_owner_bound(frames, p as int, name);
            },
            None => {},
        }
    }
}

/// After a name is assigned where it is defined, it is seen with its new
/// value from where the assignment was made.
pub proof fn law_get_after_assign<V>(frames: Seq<FrameView<V>>, env: int, name: Seq<char>, value: V)
    requires
        owner(frames, env, name) is Some,
    ensures
        lookup(bind(frames, owner(frames, env, name)->0, name, value), env, name) == Some(value),
    decreases env,
{
    let o = owner(frames, env, name)->0;
    lemma_owner_bound(frames, env, name);
    let after = bind(frames, o, name, value);
    if !frames[env].values.contains_key(name) {
        let p = frames[env].enclosing->0;
        assert(after[env] == frames[env]);
        law_get_after_assign(frames, p as int, name, value);
    }
}

} // verus!
