//! The resolver: which variable gives a value for a base name, and the record
//! of the names that were consulted on the way.

use vstd::prelude::*;
use vstd::string::*;
use vstd::utf8::*;

use crate::environment::{text_from, text_of, Environment};
use crate::error::{EnvVarError, VarError, VarErrorKind};
use crate::order::{insert_sorted, names_sorted};

verus! {

/// `target` with each hyphen replaced by an underscore.
pub open spec fn underscored(target: Seq<char>) -> Seq<char> {
    target.map_values(
        |c: char|
            if c == '-' {
                '_'
            } else {
                c
            },
    )
}

/// The role under which the target is built for: the host's own when host
/// and target are the same triple.
pub open spec fn role(host: Seq<char>, target: Seq<char>) -> Seq<char> {
    if host == target {
        seq!['H', 'O', 'S', 'T']
    } else {
        seq!['T', 'A', 'R', 'G', 'E', 'T']
    }
}

/// The most specific name for `base`: `<base>_<target>`, with the target
/// triple as it is.
pub open spec fn exact_name(base: Seq<char>, target: Seq<char>) -> Seq<char> {
    base + seq!['_'] + target
}

/// The second name for `base`: `<base>_<target>`, with underscores for the
/// hyphens of the target triple.
pub open spec fn underscored_name(base: Seq<char>, target: Seq<char>) -> Seq<char> {
    base + seq!['_'] + underscored(target)
}

/// The third name for `base`: `HOST_<base>` or `TARGET_<base>`.
pub open spec fn role_name(host: Seq<char>, target: Seq<char>, base: Seq<char>) -> Seq<char> {
    role(host, target) + seq!['_'] + base
}

/// The names under which a value for `base` is looked for, the most specific
/// first; the last is `base` itself.
pub open spec fn candidates(host: Seq<char>, target: Seq<char>, base: Seq<char>) -> Seq<
    Seq<char>,
> {
    seq![
        exact_name(base, target),
        underscored_name(base, target),
        role_name(host, target, base),
        base,
    ]
}

/// How many of the four `names` are absent from `env` before the first that is
/// set; four if none is set.
pub open spec fn misses(env: Map<Seq<char>, Seq<u8>>, names: Seq<Seq<char>>) -> int {
    if env.contains_key(names[0]) {
        0
    } else if env.contains_key(names[1]) {
        1
    } else if env.contains_key(names[2]) {
        2
    } else if env.contains_key(names[3]) {
        3
    } else {
        4
    }
}

/// The value that a resolution of `base` finds in `env`: that of the first
/// candidate that is set.
pub open spec fn resolved(
    env: Map<Seq<char>, Seq<u8>>,
    host: Seq<char>,
    target: Seq<char>,
    base: Seq<char>,
) -> Option<Seq<u8>> {
    let names = candidates(host, target, base);
    let n = misses(env, names);
    if n < 4 {
        Some(env[names[n]])
    } else {
        None
    }
}

/// The names that a resolution of `base` looks up in `env`, in the order in
/// which it does: the candidates up to the first that is set.
pub open spec fn attempted(
    env: Map<Seq<char>, Seq<u8>>,
    host: Seq<char>,
    target: Seq<char>,
    base: Seq<char>,
) -> Seq<Seq<char>> {
    let names = candidates(host, target, base);
    let n = misses(env, names);
    if n < 4 {
        names.take(n + 1)
    } else {
        names
    }
}

/// The line that tells cargo to run the build script again when the variable
/// `name` changes.
pub open spec fn rerun_hint(name: Seq<char>) -> Seq<char> {
    "cargo:rerun-if-env-changed="@ + name
}

/// The sets of names that the first one, two, three and four of `names` make.
pub proof fn lemma_prefix_sets(names: Seq<Seq<char>>)
    requires
        names.len() == 4,
    ensures
        names.take(1).to_set() == set![names[0]],
        names.take(2).to_set() == set![names[0], names[1]],
        names.take(3).to_set() == set![names[0], names[1], names[2]],
        names.to_set() == set![names[0], names[1], names[2], names[3]],
{
    assert(names.take(0).to_set() =~= Set::<Seq<char>>::empty());
    assert(names.take(1) =~= names.take(0).push(names[0]));
    names.take(0).lemma_push_to_set_commute(names[0]);
    assert(names.take(2) =~= names.take(1).push(names[1]));
    names.take(1).lemma_push_to_set_commute(names[1]);
    assert(names.take(3) =~= names.take(2).push(names[2]));
    names.take(2).lemma_push_to_set_commute(names[2]);
    assert(names =~= names.take(3).push(names[3]));
    names.take(3).lemma_push_to_set_commute(names[3]);
    assert(names.take(1).to_set() =~= set![names[0]]);
    assert(names.take(2).to_set() =~= set![names[0], names[1]]);
    assert(names.take(3).to_set() =~= set![names[0], names[1], names[2]]);
    assert(names.to_set() =~= set![names[0], names[1], names[2], names[3]]);
}

/// `target` with each hyphen replaced by an underscore.
pub fn underscore(target: &str) -> (r: String)
    ensures
        r@ == underscored(target@),
{
    let n = target.unicode_len();
    let mut r = String::new();
    let mut i: usize = 0;
    proof {
        assert(underscored(target@.take(0)) =~= Seq::<char>::empty());
    }
    while i < n
        invariant
            i <= n,
            n == target@.len(),
            r@ == underscored(target@.take(i as int)),
        decreases n - i,
    {
        if target.get_char(i) == '-' {
            r.append("_");
        } else {
            r.append(target.substring_char(i, i + 1));
        }
        proof {
            reveal_strlit("_");
            assert(underscored(target@.take(i + 1)) =~= underscored(target@.take(i as int))
                + underscored(target@.subrange(i as int, i + 1)));
            assert(underscored(target@.subrange(i as int, i + 1)) =~= seq![
                if target@[i as int] == '-' {
                    '_'
                } else {
                    target@[i as int]
                },
            ]);
        }
        i += 1;
    }
    proof {
        assert(target@.take(n as int) =~= target@);
    }
    r
}

/// The line that tells cargo to run the build script again when the variable
/// `name` changes.
pub fn rerun_if_env_changed(name: &str) -> (line: String)
    ensures
        line@ == rerun_hint(name@),
{
    let mut line = "cargo:rerun-if-env-changed=".to_owned();
    line.append(name);
    line
}

/// The text of the variable `key`, which the resolver cannot do without.
pub fn required_env_var(env: &Environment, key: &str) -> (r: Result<String, VarError>)
    ensures
        match r {
            Ok(text) => env@.contains_key(key@) && text_of(env@[key@]) == Some(text@),
            Err(e) => e.is_missing(key@, env@),
        },
{
    match env.get(key) {
        Some(raw) => match text_from(raw.as_slice()) {
            Some(text) => Ok(text),
            None => Err(
                VarError {
                    key: key.to_owned(),
                    kind: VarErrorKind::RequiredEnvMissing(EnvVarError::NotUnicode(raw.clone())),
                },
            ),
        },
        None => Err(
            VarError {
                key: key.to_owned(),
                kind: VarErrorKind::RequiredEnvMissing(EnvVarError::NotPresent),
            },
        ),
    }
}

/// What a [`BuildEnv`] stands for.
pub struct BuildEnvView {
    /// The target triple.
    pub target: Seq<char>,
    /// The host triple.
    pub host: Seq<char>,
    /// The names consulted so far, each once, in ascending order.
    pub used: Seq<Seq<char>>,
}

/// Allow retrieval of values pertaining to a `build` process that may be
/// related to the `target` and/or `host` triple.
///
/// Variable names are text. So is every name in the record of what was
/// consulted, and each of them can be written out as a line for cargo.
#[derive(Debug)]
pub struct BuildEnv {
    target: String,
    host: String,
    // kept sorted, so that the names come out in the same order whatever the
    // order of the queries
    used_env_vars: Vec<String>,
}

impl View for BuildEnv {
    type V = BuildEnvView;

    closed spec fn view(&self) -> BuildEnvView {
        BuildEnvView {
            target: self.target@,
            host: self.host@,
            used: self.used_env_vars.deep_view(),
        }
    }
}

impl Clone for BuildEnv {
    /// A resolver for the same triples, with a record of its own that holds
    /// the same names.
    fn clone(&self) -> (b: BuildEnv)
        ensures
            b@ == self@,
    {
        proof {
            use_type_invariant(self);
        }
        let used_env_vars = self.used_env_vars.clone();
        assert(used_env_vars.deep_view() =~= self.used_env_vars.deep_view());
        BuildEnv { target: self.target.clone(), host: self.host.clone(), used_env_vars }
    }
}

impl BuildEnv {
    #[verifier::type_invariant]
    spec fn sorted(self) -> bool {
        names_sorted(self.used_env_vars.deep_view())
    }

    /// Use the variables `TARGET` and `HOST` of `env` (such as cargo sets them
    /// for a build script) to determine the values of `target` and `host`.
    ///
    /// Neither of the two is recorded as consulted: cargo already runs a
    /// build script again when they change.
    pub fn from_env(env: &Environment) -> (r: Result<BuildEnv, VarError>)
        ensures
            match r {
                Ok(b) => {
                    &&& env@.contains_key("TARGET"@)
                    &&& env@.contains_key("HOST"@)
                    &&& text_of(env@["TARGET"@]) == Some(b@.target)
                    &&& text_of(env@["HOST"@]) == Some(b@.host)
                    &&& b@.used == Seq::<Seq<char>>::empty()
                },
                Err(e) => if env@.contains_key("TARGET"@) && text_of(env@["TARGET"@]) is Some {
                    e.is_missing("HOST"@, env@)
                } else {
                    e.is_missing("TARGET"@, env@)
                },
            },
    {
        let target = match required_env_var(env, "TARGET") {
            Ok(text) => text,
            Err(e) => {
                return Err(e);
            },
        };
        let host = match required_env_var(env, "HOST") {
            Ok(text) => text,
            Err(e) => {
                return Err(e);
            },
        };
        Ok(BuildEnv::new_cross(host, target))
    }

    /// Construct a BuildEnv where the host and target _may_ be different.
    pub fn new_cross(host: String, target: String) -> (b: BuildEnv)
        ensures
            b@.host == host@,
            b@.target == target@,
            b@.used == Seq::<Seq<char>>::empty(),
    {
        let b = BuildEnv { host, target, used_env_vars: Vec::new() };
        assert(b.used_env_vars.deep_view() =~= Seq::<Seq<char>>::empty());
        b
    }

    /// Construct a BuildEnv where target and host are the same.
    pub fn new(trip: String) -> (b: BuildEnv)
        ensures
            b@.host == trip@,
            b@.target == trip@,
            b@.used == Seq::<Seq<char>>::empty(),
    {
        let b = BuildEnv { host: trip.clone(), target: trip, used_env_vars: Vec::new() };
        assert(b.used_env_vars.deep_view() =~= Seq::<Seq<char>>::empty());
        b
    }

    /// The target we're supplying values for
    pub fn target(&self) -> (r: &str)
        ensures
            r@ == self@.target,
    {
        self.target.as_str()
    }

    /// The host we're supplying values for
    pub fn host(&self) -> (r: &str)
        ensures
            r@ == self@.host,
    {
        self.host.as_str()
    }

    /// The names that have been consulted by queries so far, each once, in
    /// ascending order.
    pub fn used_env_vars(&self) -> (r: &Vec<String>)
        ensures
            r.deep_view() == self@.used,
            names_sorted(r.deep_view()),
    {
        proof {
            use_type_invariant(self);
        }
        &self.used_env_vars
    }

    /// Records that the variable `var` was consulted. Nothing is written
    /// out: the line that announces `var` is that of
    /// [`rerun_if_env_changed`], and all the lines are had from
    /// [`BuildEnv::cargo_print_used_env_vars`].
    pub fn mark_used(&mut self, var: String)
        ensures
            final(self)@.host == old(self)@.host,
            final(self)@.target == old(self)@.target,
            final(self)@.used.to_set() == old(self)@.used.to_set().insert(var@),
            names_sorted(final(self)@.used),
    {
        proof {
            use_type_invariant(&*self);
        }
        let mut names: Vec<String> = Vec::new();
        assert(names.deep_view() =~= Seq::<Seq<char>>::empty());
        // the record is taken out while it grows, and is empty meanwhile
        core::mem::swap(&mut self.used_env_vars, &mut names);
        insert_sorted(&mut names, var);
        core::mem::swap(&mut self.used_env_vars, &mut names);
    }

    /// The lines that tell cargo which variables to watch, one for each name
    /// consulted so far, in ascending order of the names:
    /// `cargo:rerun-if-env-changed=FOO`. The caller prints them.
    pub fn cargo_print_used_env_vars(&self) -> (lines: Vec<String>)
        ensures
            lines.deep_view() == self@.used.map_values(|name: Seq<char>| rerun_hint(name)),
    {
        let mut lines: Vec<String> = Vec::new();
        let mut i: usize = 0;
        while i < self.used_env_vars.len()
            invariant
                i <= self.used_env_vars.len(),
                lines.deep_view() == self@.used.take(i as int).map_values(
                    |name: Seq<char>| rerun_hint(name),
                ),
            decreases self.used_env_vars.len() - i,
        {
            let ghost before = lines.deep_view();
            lines.push(rerun_if_env_changed(self.used_env_vars[i].as_str()));
            proof {
                let hint = |name: Seq<char>| rerun_hint(name);
                assert(lines.deep_view() =~= before.push(rerun_hint(self@.used[i as int])));
                assert(self@.used.take(i + 1).map_values(hint) =~= self@.used.take(
                    i as int,
                ).map_values(hint).push(rerun_hint(self@.used[i as int])));
            }
            i += 1;
        }
        proof {
            assert(self@.used.take(i as int) =~= self@.used);
        }
        lines
    }

    /// Looks `var` up in `env`, and records that it was consulted.
    fn env_one(&mut self, env: &Environment, var: String) -> (r: Option<Vec<u8>>)
        ensures
            final(self)@.host == old(self)@.host,
            final(self)@.target == old(self)@.target,
            final(self)@.used.to_set() == old(self)@.used.to_set().insert(var@),
            names_sorted(final(self)@.used),
            match r {
                Some(value) => env@.contains_key(var@) && env@[var@] == value@,
                None => !env@.contains_key(var@),
            },
    {
        let v = match env.get(var.as_str()) {
            Some(value) => Some(value.clone()),
            None => None,
        };
        self.mark_used(var);
        v
    }

    /// Query the environment for a value, trying the most specific first,
    /// before querying more general variables.
    ///
    /// 1. `<var>_<target>` - for example, `CC_x86_64-unknown-linux-gnu`
    /// 2. `<var>_<target_with_underscores>` - for example, `CC_x86_64_unknown_linux_gnu`
    /// 3. `<build-kind>_<var>` - for example, `HOST_CC` or `TARGET_CFLAGS`
    /// 4. `<var>` - a plain `CC`, `AR` as above.
    ///
    /// Each name is recorded as consulted when it is looked up, found or not;
    /// the names behind the first that is found are not looked up.
    pub fn var(&mut self, env: &Environment, var_base: &str) -> (r: Option<Vec<u8>>)
        ensures
            final(self)@.host == old(self)@.host,
            final(self)@.target == old(self)@.target,
            match r {
                Some(value) => resolved(env@, old(self)@.host, old(self)@.target, var_base@)
                    == Some(value@),
                None => resolved(env@, old(self)@.host, old(self)@.target, var_base@) is None,
            },
            final(self)@.used.to_set() == old(self)@.used.to_set().union(
                attempted(env@, old(self)@.host, old(self)@.target, var_base@).to_set(),
            ),
            names_sorted(final(self)@.used),
    {
        /* try the most specific item to the least specific item */
        let kind = if self.host == self.target {
            "HOST"
        } else {
            "TARGET"
        };
        let target_u = underscore(self.target.as_str());
        let mut a = var_base.to_owned();
        a.append("_");

        let mut b = a.clone();

        a.append(self.target.as_str());
        b.append(target_u.as_str());

        let mut c = kind.to_owned();
        c.append("_");
        c.append(var_base);

        proof {
            reveal_strlit("HOST");
            reveal_strlit("TARGET");
            reveal_strlit("_");
            let names = candidates(self@.host, self@.target, var_base@);
            assert(a@ =~= names[0]);
            assert(b@ =~= names[1]);
            assert(c@ =~= names[2]);
            lemma_prefix_sets(names);
        }

        let ghost names = candidates(self@.host, self@.target, var_base@);
        let ghost start = self@.used.to_set();

        if let Some(value) = self.env_one(env, a) {
            assert(self@.used.to_set() =~= start.union(names.take(1).to_set()));
            return Some(value);
        }
        if let Some(value) = self.env_one(env, b) {
            assert(self@.used.to_set() =~= start.union(names.take(2).to_set()));
            return Some(value);
        }
        if let Some(value) = self.env_one(env, c) {
            assert(self@.used.to_set() =~= start.union(names.take(3).to_set()));
            return Some(value);
        }
        let value = self.env_one(env, var_base.to_owned());
        assert(self@.used.to_set() =~= start.union(names.to_set()));
        assert(names.take(4) =~= names);
        value
    }

    /// The same as [`BuildEnv::var`], but reads the value as text, and says
    /// of a value that is no text which variable was asked for.
    pub fn var_str(&mut self, env: &Environment, var_base: &str) -> (r: Option<
        Result<String, VarError>,
    >)
        ensures
            final(self)@.host == old(self)@.host,
            final(self)@.target == old(self)@.target,
            match r {
                None => resolved(env@, old(self)@.host, old(self)@.target, var_base@) is None,
                Some(Ok(text)) => {
                    &&& resolved(env@, old(self)@.host, old(self)@.target, var_base@) matches Some(
                        raw,
                    )
                    &&& text_of(raw) == Some(text@)
                },
                Some(Err(e)) => {
                    &&& resolved(env@, old(self)@.host, old(self)@.target, var_base@) matches Some(
                        raw,
                    )
                    &&& text_of(raw) is None
                    &&& e.is_not_string(var_base@, raw)
                },
            },
            final(self)@.used.to_set() == old(self)@.used.to_set().union(
                attempted(env@, old(self)@.host, old(self)@.target, var_base@).to_set(),
            ),
            names_sorted(final(self)@.used),
    {
        match self.var(env, var_base) {
            Some(v) => match text_from(v.as_slice()) {
                Some(text) => Some(Ok(text)),
                None => Some(
                    Err(VarError { key: var_base.to_owned(), kind: VarErrorKind::NotString(v) }),
                ),
            },
            None => None,
        }
    }
}

} // verus!
