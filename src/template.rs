//! Template interpolation with named (`{ key }`) and positional (`{N}`)
//! placeholders.
//!
//! A compiled template is an immutable value holding its pattern. A named
//! template is rendered in one pass over the pattern, from a mapping of keys to
//! values. A positional template substitutes its values one after another, each
//! replacing every occurrence of its placeholder, left to right and without
//! overlap. Placeholders that no value names stay as they are.
use vstd::prelude::*;
use crate::chars::{chars_of, string_of};

verus! {

/// `s` with every occurrence of `p` replaced by `t`, scanning left to right;
/// an occurrence is not searched for inside a replacement.
pub open spec fn replace_spec(s: Seq<char>, p: Seq<char>, t: Seq<char>) -> Seq<char>
    decreases s.len(),
{
    if p.len() == 0 || s.len() < p.len() {
        s
    } else if s.take(p.len() as int) == p {
        t + replace_spec(s.skip(p.len() as int), p, t)
    } else {
        seq![s[0]] + replace_spec(s.skip(1), p, t)
    }
}

/// Appends the characters of `t` to `out`.
fn push_all(out: &mut Vec<char>, t: &Vec<char>)
    ensures
        final(out)@ == old(out)@ + t@,
{
    let mut i: usize = 0;
    while i < t.len()
        invariant
            0 <= i <= t@.len(),
            out@ == old(out)@ + t@.take(i as int),
        decreases t@.len() - i,
    {
        out.push(t[i]);
        i = i + 1;
        assert(out@ =~= old(out)@ + t@.take(i as int));
    }
    assert(t@.take(i as int) =~= t@);
}

/// Whether `p` occurs in `s` at index `i`.
fn occurs_at(s: &Vec<char>, i: usize, p: &Vec<char>) -> (r: bool)
    requires
        i + p@.len() <= s@.len(),
    ensures
        r == (s@.subrange(i as int, i + p@.len()) == p@),
{
    let n = s.len();
    let mut k: usize = 0;
    while k < p.len()
        invariant
            0 <= k <= p@.len(),
            n == s@.len(),
            i + p@.len() <= s@.len(),
            forall|j: int| 0 <= j < k ==> s@[i + j] == p@[j],
        decreases p@.len() - k,
    {
        if s[i + k] != p[k] {
            assert(s@.subrange(i as int, i + p@.len())[k as int] != p@[k as int]);
            return false;
        }
        k = k + 1;
    }
    assert(s@.subrange(i as int, i + p@.len()) =~= p@);
    true
}

/// Replaces every occurrence of `p` in `s` by `t` (see `replace_spec`).
pub fn replace_all(s: &Vec<char>, p: &Vec<char>, t: &Vec<char>) -> (r: Vec<char>)
    requires
        p@.len() > 0,
    ensures
        r@ == replace_spec(s@, p@, t@),
{
    let mut out: Vec<char> = Vec::new();
    let mut i: usize = 0;
    assert(s@.skip(0) =~= s@);
    while i < s.len()
        invariant
            0 <= i <= s@.len(),
            p@.len() > 0,
            out@ + replace_spec(s@.skip(i as int), p@, t@) == replace_spec(s@, p@, t@),
        decreases s@.len() - i,
    {
        let rest = Ghost(s@.skip(i as int));
        if p.len() <= s.len() - i && occurs_at(s, i, p) {
            assert(rest@.take(p@.len() as int) =~= s@.subrange(i as int, i + p@.len()));
            assert(rest@.skip(p@.len() as int) =~= s@.skip(i + p@.len()));
            push_all(&mut out, t);
            i = i + p.len();
            assert(out@ + replace_spec(s@.skip(i as int), p@, t@) =~= replace_spec(
                s@,
                p@,
                t@,
            ));
        } else {
            if p.len() <= s.len() - i {
                assert(rest@.take(p@.len() as int) =~= s@.subrange(i as int, i + p@.len()));
            } else {
                assert(replace_spec(s@.skip(i + 1), p@, t@) == s@.skip(i + 1));
            }
            assert(rest@.skip(1) =~= s@.skip(i + 1));
            out.push(s[i]);
            i = i + 1;
            assert(out@ + replace_spec(s@.skip(i as int), p@, t@) =~= replace_spec(
                s@,
                p@,
                t@,
            ));
        }
    }
    assert(s@.skip(i as int) =~= Seq::<char>::empty());
    assert(out@ + replace_spec(s@.skip(i as int), p@, t@) =~= out@);
    out
}

/// Whether `c` may stand in the key of a named placeholder.
pub open spec fn is_key_char(c: char) -> bool {
    c != ' ' && c != '{' && c != '}'
}

/// Length of the longest prefix of `s` made of key characters.
pub open spec fn key_len(s: Seq<char>) -> nat
    decreases s.len(),
{
    if s.len() > 0 && is_key_char(s[0]) {
        1 + key_len(s.skip(1))
    } else {
        0
    }
}

/// Whether `s` starts with a named placeholder `{ key }`, `key` being the
/// longest run of key characters after `{ `.
pub open spec fn starts_with_placeholder(s: Seq<char>) -> bool {
    &&& s.len() >= 2
    &&& s[0] == '{'
    &&& s[1] == ' '
    &&& s.len() >= key_len(s.skip(2)) + 4
    &&& s[key_len(s.skip(2)) as int + 2] == ' '
    &&& s[key_len(s.skip(2)) as int + 3] == '}'
}

/// The key of the placeholder that `s` starts with.
pub open spec fn placeholder_key(s: Seq<char>) -> Seq<char> {
    s.subrange(2, 2 + key_len(s.skip(2)) as int)
}

/// The views of key-value pairs of string slices.
pub open spec fn pairs_view(config: Seq<(&str, &str)>) -> Seq<(Seq<char>, Seq<char>)> {
    config.map_values(|p: (&str, &str)| (p.0@, p.1@))
}

/// The mapping that a list of pairs denotes: each key maps to the value of the
/// first pair that holds it.
pub open spec fn mapping_of(config: Seq<(Seq<char>, Seq<char>)>) -> Map<Seq<char>, Seq<char>>
    decreases config.len(),
{
    if config.len() == 0 {
        Map::empty()
    } else {
        let m = mapping_of(config.drop_last());
        if m.dom().contains(config.last().0) {
            m
        } else {
            m.insert(config.last().0, config.last().1)
        }
    }
}

/// `s` with each placeholder `{ key }` whose key `m` holds replaced by its
/// value, in one pass from left to right: an inserted value is not searched
/// again, and any other text is kept.
pub open spec fn substitute_named(s: Seq<char>, m: Map<Seq<char>, Seq<char>>) -> Seq<char>
    decreases s.len(),
{
    if s.len() == 0 {
        s
    } else if starts_with_placeholder(s) && m.dom().contains(placeholder_key(s)) {
        m[placeholder_key(s)] + substitute_named(s.skip(key_len(s.skip(2)) as int + 4), m)
    } else {
        seq![s[0]] + substitute_named(s.skip(1), m)
    }
}

/// The end of the run of key characters of `s` that starts at `from`.
fn key_end(s: &Vec<char>, from: usize) -> (j: usize)
    requires
        from <= s@.len(),
    ensures
        from <= j <= s@.len(),
        j - from == key_len(s@.skip(from as int)),
{
    let mut j: usize = from;
    while j < s.len() && s[j] != ' ' && s[j] != '{' && s[j] != '}'
        invariant
            from <= j <= s@.len(),
            key_len(s@.skip(from as int)) == (j - from) + key_len(s@.skip(j as int)),
        decreases s@.len() - j,
    {
        assert(s@.skip(j as int).skip(1) =~= s@.skip(j + 1));
        j = j + 1;
    }
    if j < s.len() {
        assert(s@.skip(j as int)[0] == s@[j as int]);
    }
    j
}

/// The end of the key of the placeholder that starts at index `i` of `s`, if
/// one does.
fn placeholder_at(s: &Vec<char>, i: usize) -> (r: Option<usize>)
    requires
        i <= s@.len(),
    ensures
        r is Some <==> starts_with_placeholder(s@.skip(i as int)),
        r is Some ==> r->0 == i + 2 + key_len(s@.skip(i + 2)) && r->0 + 2 <= s@.len(),
{
    if s.len() - i < 2 || s[i] != '{' || s[i + 1] != ' ' {
        return None;
    }
    let j = key_end(s, i + 2);
    assert(s@.skip(i as int).skip(2) =~= s@.skip(i + 2));
    if s.len() - j < 2 || s[j] != ' ' || s[j + 1] != '}' {
        return None;
    }
    Some(j)
}

/// The index of a pair of `config` whose value `mapping_of` gives to the key
/// `s[from..to]`, if it holds that key.
fn find_value(config: &[(&str, &str)], s: &Vec<char>, from: usize, to: usize) -> (r: Option<usize>)
    requires
        from <= to <= s@.len(),
    ensures
        r is Some <==> mapping_of(pairs_view(config@)).dom().contains(
            s@.subrange(from as int, to as int),
        ),
        r is Some ==> r->0 < config@.len() && config@[r->0 as int].1@ == mapping_of(
            pairs_view(config@),
        )[s@.subrange(from as int, to as int)],
{
    let ghost key = s@.subrange(from as int, to as int);
    let ghost pv = pairs_view(config@);
    let mut found: Option<usize> = None;
    let mut i: usize = 0;
    assert(pv.take(0) =~= Seq::<(Seq<char>, Seq<char>)>::empty());
    while i < config.len()
        invariant
            0 <= i <= config@.len(),
            from <= to <= s@.len(),
            key == s@.subrange(from as int, to as int),
            pv == pairs_view(config@),
            found is Some <==> mapping_of(pv.take(i as int)).dom().contains(key),
            found is Some ==> found->0 < config@.len() && config@[found->0 as int].1@ == mapping_of(
                pv.take(i as int),
            )[key],
        decreases config@.len() - i,
    {
        assert(pv.take(i + 1).drop_last() =~= pv.take(i as int));
        assert(pv.take(i + 1).last() == (config@[i as int].0@, config@[i as int].1@));
        if found.is_none() {
            let kc = chars_of(config[i].0);
            if kc.len() == to - from && occurs_at(s, from, &kc) {
                found = Some(i);
            }
        }
        i = i + 1;
    }
    assert(pv.take(i as int) =~= pv);
    found
}

/// Substitutes `config` into `template_string` in one pass: each `{ key }`
/// whose key a pair holds becomes the value of the first such pair; inserted
/// values are not searched again.
pub fn compile_template(template_string: &str, config: &[(&str, &str)]) -> (r: String)
    ensures
        r@ == substitute_named(template_string@, mapping_of(pairs_view(config@))),
{
    let s = chars_of(template_string);
    let ghost m = mapping_of(pairs_view(config@));
    let mut out: Vec<char> = Vec::new();
    let mut i: usize = 0;
    assert(s@.skip(0) =~= s@);
    while i < s.len()
        invariant
            0 <= i <= s@.len(),
            s@ == template_string@,
            m == mapping_of(pairs_view(config@)),
            out@ + substitute_named(s@.skip(i as int), m) == substitute_named(s@, m),
        decreases s@.len() - i,
    {
        let ghost rest = s@.skip(i as int);
        proof {
            if i + 2 <= s@.len() {
                assert(rest.skip(2) =~= s@.skip(i + 2));
            }
        }
        let mut next: Option<(usize, usize)> = None;
        match placeholder_at(&s, i) {
            Some(j) => {
                assert(placeholder_key(rest) =~= s@.subrange(i + 2, j as int));
                match find_value(config, &s, i + 2, j) {
                    Some(k) => {
                        next = Some((j, k));
                    },
                    None => {},
                }
            },
            None => {},
        }
        match next {
            Some((j, k)) => {
                assert(rest.skip(key_len(rest.skip(2)) as int + 4) =~= s@.skip(j + 2));
                push_all(&mut out, &chars_of(config[k].1));
                i = j + 2;
            },
            None => {
                assert(rest.skip(1) =~= s@.skip(i + 1));
                out.push(s[i]);
                i = i + 1;
            },
        }
        assert(out@ + substitute_named(s@.skip(i as int), m) =~= substitute_named(s@, m));
    }
    assert(out@ + substitute_named(s@.skip(i as int), m) =~= out@);
    string_of(&out)
}

/// No two pairs of `config` hold the same key.
pub open spec fn keys_distinct(config: Seq<(Seq<char>, Seq<char>)>) -> bool {
    forall|i: int, j: int|
        0 <= i < j < config.len() ==> #[trigger] config[i].0 != #[trigger] config[j].0
}

/// With distinct keys, the mapping holds exactly the keys of the pairs, each
/// with its pair's value.
pub proof fn lemma_mapping_of_distinct(config: Seq<(Seq<char>, Seq<char>)>)
    requires
        keys_distinct(config),
    ensures
        forall|k: Seq<char>|
            #[trigger] mapping_of(config).dom().contains(k) <==> exists|i: int|
                0 <= i < config.len() && config[i].0 == k,
        forall|i: int|
            0 <= i < config.len() ==> mapping_of(config)[#[trigger] config[i].0] == config[i].1,
    decreases config.len(),
{
    if config.len() > 0 {
        let p = config.drop_last();
        let n = config.len() - 1;
        lemma_mapping_of_distinct(p);
        assert forall|k: Seq<char>|
            #[trigger] mapping_of(config).dom().contains(k) <==> exists|i: int|
                0 <= i < config.len() && config[i].0 == k by {
            if mapping_of(p).dom().contains(k) {
                let i = choose|i: int| 0 <= i < p.len() && p[i].0 == k;
                assert(config[i].0 == k);
            }
            if exists|i: int| 0 <= i < config.len() && config[i].0 == k {
                let i = choose|i: int| 0 <= i < config.len() && config[i].0 == k;
                if i < n {
                    assert(p[i].0 == k);
                }
            }
        }
        assert(!mapping_of(p).dom().contains(config[n].0)) by {
            if mapping_of(p).dom().contains(config[n].0) {
                let i = choose|i: int| 0 <= i < p.len() && p[i].0 == config[n].0;
                assert(config[i].0 == config[n].0);
            }
        }
        assert forall|i: int| 0 <= i < config.len() implies mapping_of(config)[#[trigger] config[i].0]
            == config[i].1 by {
            if i < n {
                assert(p[i] == config[i]);
                assert(config[i].0 != config[n].0);
            }
        }
    }
}

/// A list of pairs with distinct keys renders the same, whatever the order of
/// its pairs: two such lists that hold the same pairs denote the same mapping.
pub proof fn lemma_render_ignores_pair_order(
    t: Seq<char>,
    c1: Seq<(Seq<char>, Seq<char>)>,
    c2: Seq<(Seq<char>, Seq<char>)>,
)
    requires
        keys_distinct(c1),
        keys_distinct(c2),
        c1.to_set() == c2.to_set(),
    ensures
        mapping_of(c1) == mapping_of(c2),
        substitute_named(t, mapping_of(c1)) == substitute_named(t, mapping_of(c2)),
{
    lemma_mapping_of_distinct(c1);
    lemma_mapping_of_distinct(c2);
    assert forall|k: Seq<char>| #[trigger] mapping_of(c1).dom().contains(k) implies mapping_of(
        c2,
    ).dom().contains(k) && mapping_of(c1)[k] == mapping_of(c2)[k] by {
        let i = choose|i: int| 0 <= i < c1.len() && c1[i].0 == k;
        assert(c1.to_set().contains(c1[i]));
        assert(c2.to_set().contains(c1[i]));
        let j = choose|j: int| 0 <= j < c2.len() && c2[j] == c1[i];
        assert(c2[j].0 == k);
    }
    assert forall|k: Seq<char>| #[trigger] mapping_of(c2).dom().contains(k) implies mapping_of(
        c1,
    ).dom().contains(k) by {
        let j = choose|j: int| 0 <= j < c2.len() && c2[j].0 == k;
        assert(c2.to_set().contains(c2[j]));
        assert(c1.to_set().contains(c2[j]));
        let i = choose|i: int| 0 <= i < c1.len() && c1[i] == c2[j];
        assert(c1[i].0 == k);
    }
    assert(mapping_of(c1) =~= mapping_of(c2));
}

/// A template with named placeholders, compiled once and rendered any number
/// of times.
pub struct Template {
    pattern: String,
}

impl View for Template {
    type V = Seq<char>;

    closed spec fn view(&self) -> Seq<char> {
        self.pattern@
    }
}

/// Compiles `s` into a template with `{ key }` placeholders.
pub fn template(s: String) -> (r: Template)
    ensures
        r@ == s@,
{
    Template { pattern: s }
}

impl Template {
    /// The pattern that the template was compiled from.
    pub fn pattern(&self) -> (r: &str)
        ensures
            r@ == self@,
    {
        self.pattern.as_str()
    }

    /// Renders the template: each `{ key }` whose key a pair of `config` holds
    /// becomes that key's value (see `compile_template`). The template itself
    /// is left as it was.
    pub fn render(&self, config: &[(&str, &str)]) -> (r: String)
        ensures
            r@ == substitute_named(self@, mapping_of(pairs_view(config@))),
    {
        compile_template(self.pattern.as_str(), config)
    }
}

/// The decimal digit `d`.
pub open spec fn digit_spec(d: nat) -> char {
    if d == 0 {
        '0'
    } else if d == 1 {
        '1'
    } else if d == 2 {
        '2'
    } else if d == 3 {
        '3'
    } else if d == 4 {
        '4'
    } else if d == 5 {
        '5'
    } else if d == 6 {
        '6'
    } else if d == 7 {
        '7'
    } else if d == 8 {
        '8'
    } else {
        '9'
    }
}

/// The decimal numeral of `n`, without leading zeros.
pub open spec fn decimal(n: nat) -> Seq<char>
    decreases n,
{
    if n < 10 {
        seq![digit_spec(n)]
    } else {
        decimal(n / 10).push(digit_spec(n % 10))
    }
}

/// The positional placeholder for index `n`: `{n}`.
pub open spec fn positional_placeholder(n: nat) -> Seq<char> {
    seq!['{'] + decimal(n) + seq!['}']
}

/// `t` after substituting each value of `values` in turn: the `n`-th value
/// (counting from 1) replaces every `{n}` of the text so far.
pub open spec fn substitute_positional(t: Seq<char>, values: Seq<Seq<char>>) -> Seq<char>
    decreases values.len(),
{
    if values.len() == 0 {
        t
    } else {
        replace_spec(
            substitute_positional(t, values.drop_last()),
            positional_placeholder(values.len()),
            values.last(),
        )
    }
}

/// The views of a sequence of string slices.
pub open spec fn strs_view(values: Seq<&str>) -> Seq<Seq<char>> {
    values.map_values(|v: &str| v@)
}

fn digit_char(d: usize) -> (r: char)
    requires
        d < 10,
    ensures
        r == digit_spec(d as nat),
{
    match d {
        0 => '0',
        1 => '1',
        2 => '2',
        3 => '3',
        4 => '4',
        5 => '5',
        6 => '6',
        7 => '7',
        8 => '8',
        _ => '9',
    }
}

/// Appends the decimal numeral of `n` to `out`.
fn push_decimal(out: &mut Vec<char>, n: usize)
    ensures
        final(out)@ == old(out)@ + decimal(n as nat),
    decreases n,
{
    if n < 10 {
        out.push(digit_char(n));
    } else {
        push_decimal(out, n / 10);
        out.push(digit_char(n % 10));
    }
}

/// The characters of `{n}`.
fn positional_placeholder_of(n: usize) -> (r: Vec<char>)
    ensures
        r@ == positional_placeholder(n as nat),
{
    let mut r: Vec<char> = Vec::new();
    r.push('{');
    push_decimal(&mut r, n);
    r.push('}');
    assert(r@ =~= positional_placeholder(n as nat));
    r
}

/// Substitutes the values of `config`, in order, into `template_string`: the
/// `n`-th value (counting from 1) replaces every `{n}`.
pub fn compile_template_vec(template_string: &str, config: &[&str]) -> (r: String)
    ensures
        r@ == substitute_positional(template_string@, strs_view(config@)),
{
    let mut acc = chars_of(template_string);
    let mut i: usize = 0;
    assert(strs_view(config@).take(0) =~= Seq::<Seq<char>>::empty());
    while i < config.len()
        invariant
            0 <= i <= config@.len(),
            acc@ == substitute_positional(template_string@, strs_view(config@).take(i as int)),
        decreases config@.len() - i,
    {
        let value = config[i];
        let ph = positional_placeholder_of(i + 1);
        let to = chars_of(value);
        acc = replace_all(&acc, &ph, &to);
        proof {
            let sv = strs_view(config@);
            assert(sv.take(i + 1).drop_last() =~= sv.take(i as int));
            assert(sv.take(i + 1).last() == value@);
        }
        i = i + 1;
    }
    assert(strs_view(config@).take(i as int) =~= strs_view(config@));
    string_of(&acc)
}

/// A template with positional placeholders, compiled once and rendered any
/// number of times.
pub struct PositionalTemplate {
    pattern: String,
}

impl View for PositionalTemplate {
    type V = Seq<char>;

    closed spec fn view(&self) -> Seq<char> {
        self.pattern@
    }
}

/// Compiles `s` into a template with `{N}` placeholders.
pub fn template_vec(s: String) -> (r: PositionalTemplate)
    ensures
        r@ == s@,
{
    PositionalTemplate { pattern: s }
}

impl PositionalTemplate {
    /// The pattern that the template was compiled from.
    pub fn pattern(&self) -> (r: &str)
        ensures
            r@ == self@,
    {
        self.pattern.as_str()
    }

    /// Renders the template: the `n`-th value of `config` (counting from 1)
    /// replaces every `{n}`; placeholders past the last value stay as they are.
    /// The template itself is left as it was.
    pub fn render(&self, config: &[&str]) -> (r: String)
        ensures
            r@ == substitute_positional(self@, strs_view(config@)),
    {
        compile_template_vec(self.pattern.as_str(), config)
    }
}

} // verus!
