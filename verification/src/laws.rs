//! What holds of every resolution, stated over the functions that the
//! resolver's contracts are written in.

use vstd::prelude::*;
use vstd::utf8::*;

use crate::order::{
    bytes_lt, lemma_bytes_lt_common_prefix, lemma_bytes_lt_extension, lemma_encode_concat,
    lemma_name_lt_irreflexive, lemma_name_lt_transitive, lemma_sorted_listing_unique, name_lt,
    names_sorted,
};
use crate::resolver::{
    attempted, candidates, exact_name, lemma_prefix_sets, resolved, role_name, underscored,
    underscored_name,
};

verus! {

/// The name `HOST_<base>`.
pub open spec fn host_name(base: Seq<char>) -> Seq<char> {
    seq!['H', 'O', 'S', 'T', '_'] + base
}

/// The name `TARGET_<base>`.
pub open spec fn target_name(base: Seq<char>) -> Seq<char> {
    seq!['T', 'A', 'R', 'G', 'E', 'T', '_'] + base
}

/// Most specific wins: when the name that carries the target triple as it is
/// is set, its value is the result, whatever else is set, and no other name
/// is consulted.
pub proof fn lemma_most_specific_wins(
    env: Map<Seq<char>, Seq<u8>>,
    host: Seq<char>,
    target: Seq<char>,
    base: Seq<char>,
)
    requires
        env.contains_key(exact_name(base, target)),
    ensures
        resolved(env, host, target, base) == Some(env[exact_name(base, target)]),
        attempted(env, host, target, base) == seq![exact_name(base, target)],
{
    assert(candidates(host, target, base).take(1) =~= seq![exact_name(base, target)]);
}

/// The fallback to underscores: when the name with the triple as it is is not
/// set and the one with underscores is, the latter's value is the result, and
/// these two names are consulted, in this order.
pub proof fn lemma_underscored_fallback(
    env: Map<Seq<char>, Seq<u8>>,
    host: Seq<char>,
    target: Seq<char>,
    base: Seq<char>,
)
    requires
        !env.contains_key(exact_name(base, target)),
        env.contains_key(underscored_name(base, target)),
    ensures
        resolved(env, host, target, base) == Some(env[underscored_name(base, target)]),
        attempted(env, host, target, base) == seq![
            exact_name(base, target),
            underscored_name(base, target),
        ],
{
    assert(candidates(host, target, base).take(2) =~= seq![
        exact_name(base, target),
        underscored_name(base, target),
    ]);
}

/// The third name is `HOST_<base>` when host and target are the same triple,
/// and `TARGET_<base>` when they differ.
pub proof fn lemma_role_name(host: Seq<char>, target: Seq<char>, base: Seq<char>)
    ensures
        host == target ==> role_name(host, target, base) == host_name(base),
        host != target ==> role_name(host, target, base) == target_name(base),
{
    assert(seq!['H', 'O', 'S', 'T'] + seq!['_'] + base =~= host_name(base));
    assert(seq!['T', 'A', 'R', 'G', 'E', 'T'] + seq!['_'] + base =~= target_name(base));
}

/// The role's name comes third: when neither name with the target triple is
/// set and the role's name is, its value is the result, and these three names
/// are consulted, in this order.
pub proof fn lemma_role_fallback(
    env: Map<Seq<char>, Seq<u8>>,
    host: Seq<char>,
    target: Seq<char>,
    base: Seq<char>,
)
    requires
        !env.contains_key(exact_name(base, target)),
        !env.contains_key(underscored_name(base, target)),
        env.contains_key(role_name(host, target, base)),
    ensures
        resolved(env, host, target, base) == Some(env[role_name(host, target, base)]),
        attempted(env, host, target, base) == seq![
            exact_name(base, target),
            underscored_name(base, target),
            role_name(host, target, base),
        ],
{
    assert(candidates(host, target, base).take(3) =~= seq![
        exact_name(base, target),
        underscored_name(base, target),
        role_name(host, target, base),
    ]);
}

/// A triple with a hyphen comes before its spelling with underscores.
pub proof fn lemma_underscored_comes_after(triple: Seq<char>)
    requires
        triple.contains('-'),
    ensures
        bytes_lt(encode_utf8(triple), encode_utf8(underscored(triple))),
    decreases triple.len(),
{
    let spelt = underscored(triple);
    let rest = triple.drop_first();
    assert(spelt.drop_first() =~= underscored(rest));
    if triple[0] == '-' {
        is_ascii_chars_encode_utf8(seq!['-']);
        is_ascii_chars_encode_utf8(seq!['_']);
        assert(encode_utf8(seq!['-']) =~= encode_scalar('-' as u32));
        assert(encode_utf8(seq!['_']) =~= encode_scalar('_' as u32));
    } else {
        let k = choose|k: int| 0 <= k < triple.len() && triple[k] == '-';
        assert(rest[k - 1] == '-');
        lemma_underscored_comes_after(rest);
        lemma_bytes_lt_common_prefix(
            encode_scalar(triple[0] as u32),
            encode_utf8(rest),
            encode_utf8(underscored(rest)),
        );
    }
}

/// A triple without a hyphen is its own spelling with underscores, so that
/// the first two names for a base name are one name.
pub proof fn lemma_underscored_without_hyphen(triple: Seq<char>, base: Seq<char>)
    requires
        !triple.contains('-'),
    ensures
        underscored(triple) == triple,
        underscored_name(base, triple) == exact_name(base, triple),
{
    assert(underscored(triple) =~= triple);
}

/// Precedence order: with host and target the same triple, when only the
/// plain name is set among the four, its value is the result, and all four
/// names are consulted, the plain one last.
pub proof fn lemma_plain_fallback(
    env: Map<Seq<char>, Seq<u8>>,
    triple: Seq<char>,
    base: Seq<char>,
)
    requires
        !env.contains_key(exact_name(base, triple)),
        !env.contains_key(underscored_name(base, triple)),
        !env.contains_key(host_name(base)),
        env.contains_key(base),
    ensures
        resolved(env, triple, triple, base) == Some(env[base]),
        attempted(env, triple, triple, base) == seq![
            exact_name(base, triple),
            underscored_name(base, triple),
            host_name(base),
            base,
        ],
{
    lemma_role_name(triple, triple, base);
    assert(candidates(triple, triple, base).take(4) =~= seq![
        exact_name(base, triple),
        underscored_name(base, triple),
        host_name(base),
        base,
    ]);
}

/// Precedence order, as the record shows it: with host and target the same
/// triple, a record that holds the four names for `base` and no other lists
/// them as `<base>`, `<base>_<triple>`, `<base>_<triple with underscores>`,
/// `HOST_<base>`. Left out are the triples without a hyphen, for which the
/// second and the third of these are one name, and the base names that come
/// after `HOST_`, as `ZZ` does.
pub proof fn lemma_plain_fallback_listing(
    triple: Seq<char>,
    base: Seq<char>,
    used: Seq<Seq<char>>,
)
    requires
        names_sorted(used),
        used.to_set() == candidates(triple, triple, base).to_set(),
        triple.contains('-'),
        name_lt(underscored_name(base, triple), host_name(base)),
    ensures
        used == seq![
            base,
            exact_name(base, triple),
            underscored_name(base, triple),
            host_name(base),
        ],
{
    let exact = exact_name(base, triple);
    let spelt = underscored_name(base, triple);
    let listing = seq![base, exact, spelt, host_name(base)];
    assert(name_lt(base, exact)) by {
        let rest = seq!['_'] + triple;
        assert(exact =~= base + rest);
        lemma_encode_concat(base, rest);
        assert(encode_utf8(rest).len() > 0);
        lemma_bytes_lt_extension(encode_utf8(base), encode_utf8(rest));
    }
    assert(name_lt(exact, spelt)) by {
        let head = base + seq!['_'];
        lemma_encode_concat(head, triple);
        lemma_encode_concat(head, underscored(triple));
        lemma_underscored_comes_after(triple);
        lemma_bytes_lt_common_prefix(
            encode_utf8(head),
            encode_utf8(triple),
            encode_utf8(underscored(triple)),
        );
    }
    lemma_name_lt_transitive(base, exact, spelt);
    lemma_name_lt_transitive(base, spelt, host_name(base));
    lemma_name_lt_transitive(exact, spelt, host_name(base));
    assert(names_sorted(listing));
    lemma_role_name(triple, triple, base);
    lemma_prefix_sets(candidates(triple, triple, base));
    lemma_prefix_sets(listing);
    assert(listing.to_set() =~= candidates(triple, triple, base).to_set());
    lemma_sorted_listing_unique(used, listing);
}

/// A resolution reads the four candidates and nothing else: in two
/// environments that agree on them it finds the same value and consults the
/// same names.
pub proof fn lemma_only_candidates_are_read(
    env: Map<Seq<char>, Seq<u8>>,
    other: Map<Seq<char>, Seq<u8>>,
    host: Seq<char>,
    target: Seq<char>,
    base: Seq<char>,
)
    requires
        forall|i: int|
            0 <= i < 4 ==> {
                let name = #[trigger] candidates(host, target, base)[i];
                &&& env.contains_key(name) == other.contains_key(name)
                &&& env.contains_key(name) ==> env[name] == other[name]
            },
    ensures
        resolved(env, host, target, base) == resolved(other, host, target, base),
        attempted(env, host, target, base) == attempted(other, host, target, base),
{
    let names = candidates(host, target, base);
    assert(env.contains_key(names[0]) == other.contains_key(names[0]));
    assert(env.contains_key(names[1]) == other.contains_key(names[1]));
    assert(env.contains_key(names[2]) == other.contains_key(names[2]));
    assert(env.contains_key(names[3]) == other.contains_key(names[3]));
}

/// When host and target differ, `HOST_<base>` is no candidate, and what it is
/// set to changes nothing. Left out are the base names and targets that make
/// one of the two names with the target triple read `HOST_<base>`.
pub proof fn lemma_host_name_unrelated(
    env: Map<Seq<char>, Seq<u8>>,
    host: Seq<char>,
    target: Seq<char>,
    base: Seq<char>,
    value: Seq<u8>,
)
    requires
        host != target,
        exact_name(base, target) != host_name(base),
        underscored_name(base, target) != host_name(base),
    ensures
        !candidates(host, target, base).contains(host_name(base)),
        resolved(env.insert(host_name(base), value), host, target, base) == resolved(
            env,
            host,
            target,
            base,
        ),
        resolved(env.remove(host_name(base)), host, target, base) == resolved(
            env,
            host,
            target,
            base,
        ),
        attempted(env.insert(host_name(base), value), host, target, base) == attempted(
            env,
            host,
            target,
            base,
        ),
        attempted(env.remove(host_name(base)), host, target, base) == attempted(
            env,
            host,
            target,
            base,
        ),
{
    let names = candidates(host, target, base);
    lemma_role_name(host, target, base);
    assert(names[2].len() != host_name(base).len());
    assert(names[3].len() != host_name(base).len());
    lemma_only_candidates_are_read(
        env.insert(host_name(base), value),
        env,
        host,
        target,
        base,
    );
    lemma_only_candidates_are_read(env.remove(host_name(base)), env, host, target, base);
}

/// A sorted listing holds no name twice.
pub proof fn lemma_sorted_no_duplicates(names: Seq<Seq<char>>)
    requires
        names_sorted(names),
    ensures
        names.no_duplicates(),
{
    assert forall|i: int, j: int| 0 <= i < names.len() && 0 <= j < names.len() && i != j implies
        names[i] != names[j] by {
        lemma_name_lt_irreflexive(names[i]);
        if i < j {
            assert(name_lt(names[i], names[j]));
        } else {
            assert(name_lt(names[j], names[i]));
        }
    }
}

/// Resolving again records nothing new: a record that holds the names of a
/// resolution already is left as it is by a second resolution that consults
/// the same names.
pub proof fn lemma_resolving_again_records_nothing(
    once: Seq<Seq<char>>,
    twice: Seq<Seq<char>>,
    names: Seq<Seq<char>>,
)
    requires
        names_sorted(once),
        names_sorted(twice),
        names.to_set().subset_of(once.to_set()),
        twice.to_set() == once.to_set().union(names.to_set()),
    ensures
        twice == once,
{
    assert(twice.to_set() =~= once.to_set());
    lemma_sorted_listing_unique(twice, once);
}

/// The order of the queries does not show in the record: two records that
/// grew from one by the same two sets of names, taken in either order, are
/// equal.
pub proof fn lemma_query_order_irrelevant(
    start: Seq<Seq<char>>,
    first: Seq<Seq<char>>,
    second: Seq<Seq<char>>,
    one_way: Seq<Seq<char>>,
    other_way: Seq<Seq<char>>,
)
    requires
        names_sorted(one_way),
        names_sorted(other_way),
        one_way.to_set() == start.to_set().union(first.to_set()).union(second.to_set()),
        other_way.to_set() == start.to_set().union(second.to_set()).union(first.to_set()),
    ensures
        one_way == other_way,
{
    assert(one_way.to_set() =~= other_way.to_set());
    lemma_sorted_listing_unique(one_way, other_way);
}

} // verus!
