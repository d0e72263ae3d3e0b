//! Expanding `%NAME%` references to environment variables in a path typed
//! by a user.
//!
//! The input is read left to right. A `%` starts a reference; the name runs
//! to the next `%`. A closed reference with a non-empty name is replaced by
//! the variable's value when the variable is set, and kept as written
//! otherwise; `%%` is kept; a `%` with no closing `%` keeps the rest of the
//! input as it is. Looking variables up is left to the caller: the names to
//! look up, in order, come from `env_var_references`, and their values (or
//! `None`) go to `expand_env_vars` in the same order.
use vstd::prelude::*;
use crate::text::{chars_of, push_char, string_of};

verus! {

/// The value given for the `j`-th reference, `None` where none was given.
pub open spec fn value_at(values: Seq<Option<String>>, j: int) -> Option<String> {
    if 0 <= j < values.len() {
        values[j]
    } else {
        None
    }
}

/// The expansion of the text `s`, read outside any reference, where
/// `values[j]` is the value of the `j`-th reference met from here on.
pub open spec fn expand_text(s: Seq<char>, values: Seq<Option<String>>, j: int) -> Seq<char>
    decreases s.len(), 1int,
{
    if s.len() == 0 {
        Seq::empty()
    } else if s[0] != '%' {
        seq![s[0]] + expand_text(s.drop_first(), values, j)
    } else {
        expand_reference(s.drop_first(), Seq::empty(), values, j)
    }
}

/// The expansion of the text `s` read inside a reference whose name so far
/// is `name`.
pub open spec fn expand_reference(
    s: Seq<char>,
    name: Seq<char>,
    values: Seq<Option<String>>,
    j: int,
) -> Seq<char>
    decreases s.len(), 0int,
{
    if s.len() == 0 {
        seq!['%'] + name
    } else if s[0] == '%' {
        if name.len() == 0 {
            seq!['%', '%'] + expand_text(s.drop_first(), values, j)
        } else {
            let shown = match value_at(values, j) {
                Some(v) => v@,
                None => seq!['%'] + name + seq!['%'],
            };
            shown + expand_text(s.drop_first(), values, j + 1)
        }
    } else {
        expand_reference(s.drop_first(), name.push(s[0]), values, j)
    }
}

/// The expansion of `input` with `values[j]` the value of its `j`-th
/// reference.
pub open spec fn expanded(input: Seq<char>, values: Seq<Option<String>>) -> Seq<char> {
    expand_text(input, values, 0)
}

/// The names of the references in `s`, read outside any reference, in order.
pub open spec fn names_in_text(s: Seq<char>) -> Seq<Seq<char>>
    decreases s.len(), 1int,
{
    if s.len() == 0 {
        Seq::empty()
    } else if s[0] != '%' {
        names_in_text(s.drop_first())
    } else {
        names_in_reference(s.drop_first(), Seq::empty())
    }
}

/// The names of the references in `s`, read inside a reference whose name
/// so far is `name`.
pub open spec fn names_in_reference(s: Seq<char>, name: Seq<char>) -> Seq<Seq<char>>
    decreases s.len(), 0int,
{
    if s.len() == 0 {
        Seq::empty()
    } else if s[0] == '%' {
        if name.len() == 0 {
            names_in_text(s.drop_first())
        } else {
            seq![name] + names_in_text(s.drop_first())
        }
    } else {
        names_in_reference(s.drop_first(), name.push(s[0]))
    }
}

/// The names of the variables that expanding `input` looks up, in order.
pub open spec fn referenced_names(input: Seq<char>) -> Seq<Seq<char>> {
    names_in_text(input)
}

/// The texts of a sequence of strings.
pub open spec fn texts(v: Seq<String>) -> Seq<Seq<char>> {
    Seq::new(v.len(), |i: int| v[i]@)
}

/// The names of the variables that `expand_env_vars` looks up for `input`,
/// in the order it uses their values.
pub fn env_var_references(input: &str) -> (names: Vec<String>)
    ensures
        texts(names@) == referenced_names(input@),
{
    let chars = chars_of(input);
    let n = chars.len();
    let mut names: Vec<String> = Vec::new();
    let mut in_reference = false;
    let mut name: Vec<char> = Vec::new();
    let mut i: usize = 0;
    assert(chars@.skip(0) =~= chars@);
    assert(texts(names@) =~= Seq::<Seq<char>>::empty());
    while i < n
        invariant
            n == chars@.len(),
            chars@ == input@,
            i <= n,
            !in_reference ==> name@.len() == 0,
            referenced_names(input@) == texts(names@) + (if in_reference {
                names_in_reference(chars@.skip(i as int), name@)
            } else {
                names_in_text(chars@.skip(i as int))
            }),
        decreases n - i,
    {
        let c = chars[i];
        let ghost rest = chars@.skip(i as int);
        let ghost done = texts(names@);
        assert(rest.drop_first() =~= chars@.skip(i + 1));
        assert(rest[0] == c);
        if !in_reference {
            if c == '%' {
                assert(name@ =~= Seq::<char>::empty());
                assert(names_in_text(rest) == names_in_reference(rest.drop_first(), name@));
                in_reference = true;
            } else {
                assert(names_in_text(rest) == names_in_text(rest.drop_first()));
            }
        } else if c == '%' {
            if name.len() > 0 {
                assert(names_in_reference(rest, name@) == seq![name@] + names_in_text(
                    rest.drop_first(),
                ));
                names.push(string_of(name.as_slice()));
                assert(texts(names@) =~= done + seq![name@]);
                assert(done + (seq![name@] + names_in_text(rest.drop_first())) =~= texts(names@)
                    + names_in_text(rest.drop_first()));
            } else {
                assert(names_in_reference(rest, name@) == names_in_text(rest.drop_first()));
            }
            name = Vec::new();
            in_reference = false;
        } else {
            assert(names_in_reference(rest, name@) == names_in_reference(
                rest.drop_first(),
                name@.push(c),
            ));
            name.push(c);
        }
        i = i + 1;
    }
    assert(chars@.skip(n as int) =~= Seq::<char>::empty());
    assert(texts(names@) + Seq::<Seq<char>>::empty() =~= texts(names@));
    names
}

/// Expands the `%NAME%` references in `input`, where `values[j]` is the
/// value of the variable of the `j`-th reference (as `env_var_references`
/// lists them), `None` when it is not set; missing values count as `None`.
pub fn expand_env_vars(input: &str, values: &Vec<Option<String>>) -> (out: String)
    ensures
        out@ == expanded(input@, values@),
{
    let chars = chars_of(input);
    let n = chars.len();
    let mut out = String::new();
    let mut in_reference = false;
    let mut name: Vec<char> = Vec::new();
    let mut j: usize = 0;
    let mut i: usize = 0;
    assert(chars@.skip(0) =~= chars@);
    assert(out@ + expand_text(chars@, values@, 0) =~= expand_text(chars@, values@, 0));
    while i < n
        invariant
            n == chars@.len(),
            chars@ == input@,
            i <= n,
            j <= i,
            !in_reference ==> name@.len() == 0,
            expanded(input@, values@) == out@ + (if in_reference {
                expand_reference(chars@.skip(i as int), name@, values@, j as int)
            } else {
                expand_text(chars@.skip(i as int), values@, j as int)
            }),
        decreases n - i,
    {
        let c = chars[i];
        let ghost rest = chars@.skip(i as int);
        assert(rest.drop_first() =~= chars@.skip(i + 1));
        assert(rest[0] == c);
        let ghost before = out@;
        if !in_reference {
            if c == '%' {
                assert(name@ =~= Seq::<char>::empty());
                assert(expand_text(rest, values@, j as int) == expand_reference(
                    rest.drop_first(),
                    name@,
                    values@,
                    j as int,
                ));
                in_reference = true;
            } else {
                assert(expand_text(rest, values@, j as int) == seq![c] + expand_text(
                    rest.drop_first(),
                    values@,
                    j as int,
                ));
                push_char(&mut out, c);
                assert(before + (seq![c] + expand_text(rest.drop_first(), values@, j as int))
                    =~= out@ + expand_text(rest.drop_first(), values@, j as int));
            }
        } else if c == '%' {
            if name.len() == 0 {
                push_char(&mut out, '%');
                push_char(&mut out, '%');
                assert(before + (seq!['%', '%'] + expand_text(rest.drop_first(), values@, j as int))
                    =~= out@ + expand_text(rest.drop_first(), values@, j as int));
            } else {
                let ghost shown = match value_at(values@, j as int) {
                    Some(v) => v@,
                    None => seq!['%'] + name@ + seq!['%'],
                };
                if j < values.len() && values[j].is_some() {
                    match &values[j] {
                        Some(v) => {
                            out.append(v.as_str());
                        },
                        None => {},
                    }
                } else {
                    push_char(&mut out, '%');
                    let name_text = string_of(name.as_slice());
                    out.append(name_text.as_str());
                    push_char(&mut out, '%');
                }
                assert(out@ =~= before + shown);
                assert(before + (shown + expand_text(rest.drop_first(), values@, j + 1))
                    =~= out@ + expand_text(rest.drop_first(), values@, j + 1));
                j = j + 1;
            }
            name = Vec::new();
            in_reference = false;
        } else {
            assert(expand_reference(rest, name@, values@, j as int) == expand_reference(
                rest.drop_first(),
                name@.push(c),
                values@,
                j as int,
            ));
            name.push(c);
        }
        i = i + 1;
    }
    assert(chars@.skip(n as int) =~= Seq::<char>::empty());
    if in_reference {
        let ghost before = out@;
        push_char(&mut out, '%');
        let name_text = string_of(name.as_slice());
        out.append(name_text.as_str());
        assert(out@ =~= before + (seq!['%'] + name@));
    } else {
        assert(out@ + Seq::<char>::empty() =~= out@);
    }
    out
}

/// Text outside any reference is kept when no variable is set.
proof fn lemma_text_kept(s: Seq<char>, values: Seq<Option<String>>, j: int)
    requires
        forall|k: int| 0 <= k < values.len() ==> #[trigger] values[k] is None,
    ensures
        expand_text(s, values, j) == s,
    decreases s.len(), 1int,
{
    if s.len() > 0 {
        if s[0] != '%' {
            lemma_text_kept(s.drop_first(), values, j);
        } else {
            lemma_reference_kept(s.drop_first(), Seq::empty(), values, j);
        }
        assert(s =~= seq![s[0]] + s.drop_first());
    }
}

/// Text inside a reference is kept when no variable is set.
proof fn lemma_reference_kept(s: Seq<char>, name: Seq<char>, values: Seq<Option<String>>, j: int)
    requires
        forall|k: int| 0 <= k < values.len() ==> #[trigger] values[k] is None,
    ensures
        expand_reference(s, name, values, j) == seq!['%'] + name + s,
    decreases s.len(), 0int,
{
    if s.len() > 0 {
        assert(s =~= seq![s[0]] + s.drop_first());
        if s[0] == '%' {
            if name.len() == 0 {
                lemma_text_kept(s.drop_first(), values, j);
                assert(seq!['%', '%'] + s.drop_first() =~= seq!['%'] + name + s);
            } else {
                lemma_text_kept(s.drop_first(), values, j + 1);
                assert(value_at(values, j) is None);
                assert(seq!['%'] + name + seq!['%'] + s.drop_first() =~= seq!['%'] + name + s);
            }
        } else {
            lemma_reference_kept(s.drop_first(), name.push(s[0]), values, j);
            assert(seq!['%'] + name.push(s[0]) + s.drop_first() =~= seq!['%'] + name + s);
        }
    } else {
        assert(seq!['%'] + name + s =~= seq!['%'] + name);
    }
}

/// When none of the referenced variables is set, the input comes back unchanged.
pub proof fn lemma_unset_variables_keep_input(input: Seq<char>, values: Seq<Option<String>>)
    requires
        forall|k: int| 0 <= k < values.len() ==> #[trigger] values[k] is None,
    ensures
        expanded(input, values) == input,
{
    lemma_text_kept(input, values, 0);
}

/// The number of `%` characters in `s`.
pub open spec fn percent_count(s: Seq<char>) -> nat
    decreases s.len(),
{
    if s.len() == 0 {
        0
    } else {
        (if s[0] == '%' { 1nat } else { 0nat }) + percent_count(s.drop_first())
    }
}

/// The values that looking up `names` in `env` gives, in order.
pub open spec fn lookups(names: Seq<Seq<char>>, env: spec_fn(Seq<char>) -> Option<String>) -> Seq<Option<String>> {
    names.map_values(env)
}

/// Whether `v1` from `j1` and `v2` from `j2` give the same values for the
/// next `n` references.
pub open spec fn same_values(v1: Seq<Option<String>>, j1: int, v2: Seq<Option<String>>, j2: int, n: nat) -> bool {
    forall|k: int| 0 <= k < n ==> #[trigger] value_at(v1, j1 + k) == value_at(v2, j2 + k)
}

/// Text read outside a reference expands the same with any values that
/// agree on the references it holds.
proof fn lemma_text_uses_own_values(
    s: Seq<char>,
    v1: Seq<Option<String>>,
    j1: int,
    v2: Seq<Option<String>>,
    j2: int,
)
    requires
        same_values(v1, j1, v2, j2, names_in_text(s).len()),
    ensures
        expand_text(s, v1, j1) == expand_text(s, v2, j2),
    decreases s.len(), 1int,
{
    if s.len() > 0 {
        if s[0] != '%' {
            lemma_text_uses_own_values(s.drop_first(), v1, j1, v2, j2);
        } else {
            lemma_reference_uses_own_values(s.drop_first(), Seq::empty(), v1, j1, v2, j2);
        }
    }
}

/// Text read inside a reference expands the same with any values that
/// agree on the references it holds.
proof fn lemma_reference_uses_own_values(
    s: Seq<char>,
    name: Seq<char>,
    v1: Seq<Option<String>>,
    j1: int,
    v2: Seq<Option<String>>,
    j2: int,
)
    requires
        same_values(v1, j1, v2, j2, names_in_reference(s, name).len()),
    ensures
        expand_reference(s, name, v1, j1) == expand_reference(s, name, v2, j2),
    decreases s.len(), 0int,
{
    if s.len() > 0 {
        if s[0] == '%' {
            if name.len() == 0 {
                lemma_text_uses_own_values(s.drop_first(), v1, j1, v2, j2);
            } else {
                let n = names_in_text(s.drop_first()).len();
                assert(value_at(v1, j1 + 0) == value_at(v2, j2 + 0));
                assert forall|k: int| 0 <= k < n implies #[trigger] value_at(v1, (j1 + 1) + k)
                    == value_at(v2, (j2 + 1) + k) by {
                    assert(value_at(v1, j1 + (k + 1)) == value_at(v2, j2 + (k + 1)));
                    assert(j1 + (k + 1) == (j1 + 1) + k);
                    assert(j2 + (k + 1) == (j2 + 1) + k);
                }
                lemma_text_uses_own_values(s.drop_first(), v1, j1 + 1, v2, j2 + 1);
            }
        } else {
            lemma_reference_uses_own_values(s.drop_first(), name.push(s[0]), v1, j1, v2, j2);
        }
    }
}

/// Splitting text outside a reference after an even number of `%`.
proof fn lemma_text_concat(a: Seq<char>, b: Seq<char>, v: Seq<Option<String>>, j: int)
    requires
        percent_count(a) % 2 == 0,
    ensures
        expand_text(a + b, v, j) == expand_text(a, v, j) + expand_text(b, v, j + names_in_text(a).len()),
        names_in_text(a + b) == names_in_text(a) + names_in_text(b),
    decreases a.len(), 1int,
{
    if a.len() == 0 {
        assert(a + b =~= b);
    } else {
        assert((a + b).drop_first() =~= a.drop_first() + b);
        assert((a + b)[0] == a[0]);
        if a[0] != '%' {
            lemma_text_concat(a.drop_first(), b, v, j);
            assert(seq![a[0]] + (expand_text(a.drop_first(), v, j) + expand_text(
                b,
                v,
                j + names_in_text(a.drop_first()).len(),
            )) =~= seq![a[0]] + expand_text(a.drop_first(), v, j) + expand_text(
                b,
                v,
                j + names_in_text(a.drop_first()).len(),
            ));
        } else {
            lemma_reference_concat(a.drop_first(), b, Seq::empty(), v, j);
        }
    }
}

/// Splitting text inside a reference after an odd number of `%`.
proof fn lemma_reference_concat(
    a: Seq<char>,
    b: Seq<char>,
    name: Seq<char>,
    v: Seq<Option<String>>,
    j: int,
)
    requires
        percent_count(a) % 2 == 1,
    ensures
        expand_reference(a + b, name, v, j) == expand_reference(a, name, v, j) + expand_text(
            b,
            v,
            j + names_in_reference(a, name).len(),
        ),
        names_in_reference(a + b, name) == names_in_reference(a, name) + names_in_text(b),
    decreases a.len(), 0int,
{
    assert(a.len() > 0);
    assert((a + b).drop_first() =~= a.drop_first() + b);
    assert((a + b)[0] == a[0]);
    let rest = a.drop_first();
    if a[0] == '%' {
        lemma_text_concat(rest, b, v, if name.len() == 0 { j } else { j + 1 });
        if name.len() == 0 {
            assert(seq!['%', '%'] + (expand_text(rest, v, j) + expand_text(
                b,
                v,
                j + names_in_text(rest).len(),
            )) =~= seq!['%', '%'] + expand_text(rest, v, j) + expand_text(
                b,
                v,
                j + names_in_text(rest).len(),
            ));
        } else {
            let shown = match value_at(v, j) {
                Some(x) => x@,
                None => seq!['%'] + name + seq!['%'],
            };
            assert(shown + (expand_text(rest, v, j + 1) + expand_text(
                b,
                v,
                j + 1 + names_in_text(rest).len(),
            )) =~= shown + expand_text(rest, v, j + 1) + expand_text(
                b,
                v,
                j + 1 + names_in_text(rest).len(),
            ));
            assert(seq![name] + (names_in_text(rest) + names_in_text(b)) =~= seq![name]
                + names_in_text(rest) + names_in_text(b));
        }
    } else {
        lemma_reference_concat(rest, b, name.push(a[0]), v, j);
    }
}

/// Expanding two texts one after the other, where the first holds an even
/// number of `%` (so it ends outside any reference): the references of the
/// whole are those of the first followed by those of the second, and with
/// the values of the first's references followed by those of the second's,
/// the whole expands to the two expansions one after the other.
pub proof fn lemma_expansion_of_concatenation(
    a: Seq<char>,
    b: Seq<char>,
    values_a: Seq<Option<String>>,
    values_b: Seq<Option<String>>,
)
    requires
        percent_count(a) % 2 == 0,
        values_a.len() == referenced_names(a).len(),
    ensures
        referenced_names(a + b) == referenced_names(a) + referenced_names(b),
        expanded(a + b, values_a + values_b) == expanded(a, values_a) + expanded(b, values_b),
{
    let v = values_a + values_b;
    let n = names_in_text(a).len();
    lemma_text_concat(a, b, v, 0);
    assert forall|k: int| 0 <= k < n implies #[trigger] value_at(v, 0 + k) == value_at(
        values_a,
        0 + k,
    ) by {}
    lemma_text_uses_own_values(a, v, 0, values_a, 0);
    assert forall|k: int| 0 <= k < names_in_text(b).len() implies #[trigger] value_at(v, n + k)
        == value_at(values_b, 0 + k) by {}
    lemma_text_uses_own_values(b, v, n as int, values_b, 0);
}

/// Expanding two texts one after the other with the same environment, where
/// the first holds an even number of `%`, gives the two expansions one after
/// the other.
pub proof fn lemma_expansion_in_one_environment(
    a: Seq<char>,
    b: Seq<char>,
    env: spec_fn(Seq<char>) -> Option<String>,
)
    requires
        percent_count(a) % 2 == 0,
    ensures
        expanded(a + b, lookups(referenced_names(a + b), env)) == expanded(
            a,
            lookups(referenced_names(a), env),
        ) + expanded(b, lookups(referenced_names(b), env)),
{
    let va = lookups(referenced_names(a), env);
    let vb = lookups(referenced_names(b), env);
    lemma_expansion_of_concatenation(a, b, va, vb);
    assert(lookups(referenced_names(a + b), env) =~= va + vb);
}

} // verus!
