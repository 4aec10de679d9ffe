use vstd::prelude::*;
use vstd::string::{StrSliceExecFns, StringExecFns};

verus! {

/// What `char::to_uppercase` yields for `c`, as a string (Unicode case
/// mapping: one character may become several).
pub uninterp spec fn char_upper(c: char) -> Seq<char>;

/// What `str::to_uppercase` returns for `s`.
pub uninterp spec fn str_upper(s: Seq<char>) -> Seq<char>;

/// What `str::to_lowercase` returns for `s`.
pub uninterp spec fn str_lower(s: Seq<char>) -> Seq<char>;

/// Calls `char::to_uppercase` and collects the characters it yields; the
/// result is named [`char_upper`], not stated.
#[verifier::external_body]
fn upper_char(c: char) -> (r: String)
    ensures
        r@ == char_upper(c),
{
    c.to_uppercase().collect()
}

/// Calls `str::to_uppercase`; the result is named [`str_upper`], not stated.
#[verifier::external_body]
fn upper_str(s: &str) -> (r: String)
    ensures
        r@ == str_upper(s@),
{
    s.to_uppercase()
}

/// Calls `str::to_lowercase`; the result is named [`str_lower`], not stated.
#[verifier::external_body]
fn lower_str(s: &str) -> (r: String)
    ensures
        r@ == str_lower(s@),
{
    s.to_lowercase()
}

/// Calls `String::push`, which appends `c` to `s`.
#[verifier::external_body]
fn push_char(s: &mut String, c: char)
    ensures
        final(s)@ == old(s)@.push(c),
{
    s.push(c)
}

/// The parts of a snake_case name between its underscores, in order:
/// `"a__b"` has the three parts `"a"`, `""` and `"b"`, and `""` has one.
pub open spec fn snake_parts(s: Seq<char>) -> Seq<Seq<char>>
    decreases s.len(),
{
    if s.len() == 0 {
        seq![Seq::empty()]
    } else {
        let p = snake_parts(s.drop_last());
        if s.last() == '_' {
            p.push(Seq::empty())
        } else {
            p.update(p.len() - 1, p.last().push(s.last()))
        }
    }
}

/// `part` with its first character in upper case.
pub open spec fn capitalized(part: Seq<char>) -> Seq<char> {
    if part.len() == 0 {
        Seq::empty()
    } else {
        char_upper(part[0]) + part.drop_first()
    }
}

/// The parts, each capitalized, joined.
pub open spec fn joined_capitalized(parts: Seq<Seq<char>>) -> Seq<char>
    decreases parts.len(),
{
    if parts.len() == 0 {
        Seq::empty()
    } else {
        joined_capitalized(parts.drop_last()) + capitalized(parts.last())
    }
}

/// The PascalCase form of a snake_case name: every part capitalized.
pub open spec fn pascal_case(s: Seq<char>) -> Seq<char> {
    joined_capitalized(snake_parts(s))
}

/// The camelCase form of a snake_case name: the first part as it is, the
/// others capitalized.
pub open spec fn camel_case(s: Seq<char>) -> Seq<char> {
    let p = snake_parts(s);
    p[0] + joined_capitalized(p.drop_first())
}

/// The kebab-case form of a snake_case name: underscores become hyphens.
pub open spec fn kebab_case(s: Seq<char>) -> Seq<char> {
    s.map_values(|c: char| if c == '_' { '-' } else { c })
}

/// The key of a field named `name` under the container's `rename_all`
/// rule, as serde names it; an unknown rule, or none, keeps the name.
pub open spec fn renamed(name: Seq<char>, rule: Option<Seq<char>>) -> Seq<char> {
    match rule {
        Some(r) => if r == "lowercase"@ {
            str_lower(name)
        } else if r == "UPPERCASE"@ || r == "SCREAMING_SNAKE_CASE"@ {
            str_upper(name)
        } else if r == "PascalCase"@ {
            pascal_case(name)
        } else if r == "camelCase"@ {
            camel_case(name)
        } else if r == "kebab-case"@ {
            kebab_case(name)
        } else if r == "SCREAMING-KEBAB-CASE"@ {
            kebab_case(str_upper(name))
        } else {
            name
        },
        None => name,
    }
}

/// The view of an optional string slice.
pub open spec fn opt_str_view(s: Option<&str>) -> Option<Seq<char>> {
    match s {
        Some(s) => Some(s@),
        None => None,
    }
}

/// Every name has at least one part.
proof fn lemma_snake_parts_nonempty(s: Seq<char>)
    ensures
        snake_parts(s).len() >= 1,
    decreases s.len(),
{
    if s.len() > 0 {
        lemma_snake_parts_nonempty(s.drop_last());
    }
}

/// Capitalizing a part grown by one character.
proof fn lemma_capitalized_push(q: Seq<char>, c: char)
    ensures
        capitalized(q.push(c)) == if q.len() == 0 {
            char_upper(c)
        } else {
            capitalized(q).push(c)
        },
{
    if q.len() == 0 {
        assert(q.push(c).drop_first() =~= Seq::<char>::empty());
        assert(char_upper(c) + Seq::<char>::empty() =~= char_upper(c));
    } else {
        assert(q.push(c).drop_first() =~= q.drop_first().push(c));
        assert(char_upper(q[0]) + q.drop_first().push(c) =~= (char_upper(q[0]) + q.drop_first()).push(c));
    }
}

/// Joining after the last part grew by one character.
proof fn lemma_joined_grow(p: Seq<Seq<char>>, c: char)
    requires
        p.len() >= 1,
    ensures
        joined_capitalized(p.update(p.len() - 1, p.last().push(c))) == if p.last().len() == 0 {
            joined_capitalized(p) + char_upper(c)
        } else {
            joined_capitalized(p).push(c)
        },
{
    let q = p.update(p.len() - 1, p.last().push(c));
    assert(q.drop_last() =~= p.drop_last());
    lemma_capitalized_push(p.last(), c);
    if p.last().len() == 0 {
        assert(capitalized(p.last()) =~= Seq::<char>::empty());
        assert(joined_capitalized(p.drop_last()) + Seq::<char>::empty() =~= joined_capitalized(p.drop_last()));
    } else {
        assert(joined_capitalized(p.drop_last()) + capitalized(p.last()).push(c) =~= (joined_capitalized(
            p.drop_last(),
        ) + capitalized(p.last())).push(c));
    }
}

/// Joining after an empty part was added.
proof fn lemma_joined_new_part(p: Seq<Seq<char>>)
    ensures
        joined_capitalized(p.push(Seq::empty())) == joined_capitalized(p),
{
    assert(p.push(Seq::empty()).drop_last() =~= p);
    assert(joined_capitalized(p) + Seq::<char>::empty() =~= joined_capitalized(p));
}

/// Whether `a` and `b` hold the same characters.
fn same_text(a: &str, b: &str) -> (r: bool)
    ensures
        r == (a@ == b@),
{
    let n = a.unicode_len();
    if n != b.unicode_len() {
        return false;
    }
    let mut i: usize = 0;
    while i < n
        invariant
            n == a@.len() == b@.len(),
            i <= n,
            forall|j: int| 0 <= j < i ==> a@[j] == b@[j],
        decreases n - i,
    {
        if a.get_char(i) != b.get_char(i) {
            return false;
        }
        i += 1;
    }
    assert(a@ =~= b@);
    true
}

/// `name` with every underscore replaced by a hyphen.
fn hyphenated(name: &str) -> (r: String)
    ensures
        r@ == kebab_case(name@),
{
    let n = name.unicode_len();
    let mut out = String::new();
    let mut i: usize = 0;
    while i < n
        invariant
            n == name@.len(),
            i <= n,
            out@ == kebab_case(name@.take(i as int)),
        decreases n - i,
    {
        let c = name.get_char(i);
        let ghost before = out@;
        if c == '_' {
            push_char(&mut out, '-');
        } else {
            push_char(&mut out, c);
        }
        assert(out@ =~= kebab_case(name@.take(i + 1)));
        i += 1;
    }
    assert(name@.take(n as int) =~= name@);
    out
}

/// Join the parts of `name` after the first one with each part
/// capitalized; the first part is capitalized too when `capitalize_first`.
fn cased(name: &str, capitalize_first: bool) -> (r: String)
    ensures
        capitalize_first ==> r@ == pascal_case(name@),
        !capitalize_first ==> r@ == camel_case(name@),
{
    let n = name.unicode_len();
    let mut out = String::new();
    let mut at_start = capitalize_first;
    let mut i: usize = 0;
    proof {
        let e = Seq::<char>::empty();
        assert(name@.take(0) =~= e);
        assert(seq![e].drop_last() =~= Seq::<Seq<char>>::empty());
        assert(joined_capitalized(Seq::<Seq<char>>::empty()) == e);
        assert(seq![e].last() == e);
        assert(e + e =~= e);
        assert(joined_capitalized(seq![e]) =~= e);
    }
    while i < n
        invariant
            n == name@.len(),
            i <= n,
            snake_parts(name@.take(i as int)).len() >= 1,
            capitalize_first ==> out@ == pascal_case(name@.take(i as int)),
            capitalize_first ==> at_start == (snake_parts(name@.take(i as int)).last().len() == 0),
            !capitalize_first ==> out@ == camel_case(name@.take(i as int)),
            !capitalize_first ==> at_start == (snake_parts(name@.take(i as int)).len() > 1
                && snake_parts(name@.take(i as int)).last().len() == 0),
        decreases n - i,
    {
        let c = name.get_char(i);
        let ghost pre = name@.take(i as int);
        let ghost next = name@.take(i + 1);
        let ghost p = snake_parts(pre);
        proof {
            assert(next.drop_last() =~= pre);
            assert(next.last() == c);
            lemma_snake_parts_nonempty(next);
        }
        if c == '_' {
            at_start = true;
            proof {
                assert(snake_parts(next) == p.push(Seq::empty()));
                lemma_joined_new_part(p);
                if !capitalize_first {
                    assert(p.push(Seq::empty()).drop_first() =~= p.drop_first().push(Seq::empty()));
                    lemma_joined_new_part(p.drop_first());
                }
            }
        } else {
            let ghost q = p.update(p.len() - 1, p.last().push(c));
            proof {
                assert(snake_parts(next) == q);
                lemma_joined_grow(p, c);
            }
            if at_start {
                let up = upper_char(c);
                out.append(up.as_str());
            } else {
                push_char(&mut out, c);
            }
            at_start = false;
            proof {
                if !capitalize_first {
                    if p.len() == 1 {
                        assert(q.drop_first() =~= Seq::<Seq<char>>::empty());
                        assert(p.drop_first() =~= Seq::<Seq<char>>::empty());
                        assert(q[0] == p[0].push(c));
                    } else {
                        assert(q.drop_first() =~= p.drop_first().update(p.drop_first().len() - 1, p.drop_first().last().push(c)));
                        lemma_joined_grow(p.drop_first(), c);
                        assert(q[0] == p[0]);
                        if p.last().len() == 0 {
                            assert(p[0] + (joined_capitalized(p.drop_first()) + char_upper(c)) =~= (p[0] + joined_capitalized(p.drop_first())) + char_upper(c));
                        } else {
                            assert(p[0] + joined_capitalized(p.drop_first()).push(c) =~= (p[0] + joined_capitalized(p.drop_first())).push(c));
                        }
                    }
                }
            }
        }
        i += 1;
    }
    assert(name@.take(n as int) =~= name@);
    out
}

/// The PascalCase form of the snake_case name `name`.
pub fn to_pascal_case(name: &str) -> (r: String)
    ensures
        r@ == pascal_case(name@),
{
    cased(name, true)
}

/// The camelCase form of the snake_case name `name`.
pub fn to_camel_case(name: &str) -> (r: String)
    ensures
        r@ == camel_case(name@),
{
    cased(name, false)
}

/// The key under which a map store announces the field named `name`, given
/// the container's serde `rename_all` rule.
pub fn rename_field(name: &str, rename_all: Option<&str>) -> (r: String)
    ensures
        r@ == renamed(name@, opt_str_view(rename_all)),
{
    match rename_all {
        Some(rule) => {
            if same_text(rule, "lowercase") {
                lower_str(name)
            } else if same_text(rule, "UPPERCASE") || same_text(rule, "SCREAMING_SNAKE_CASE") {
                upper_str(name)
            } else if same_text(rule, "PascalCase") {
                to_pascal_case(name)
            } else if same_text(rule, "camelCase") {
                to_camel_case(name)
            } else if same_text(rule, "kebab-case") {
                hyphenated(name)
            } else if same_text(rule, "SCREAMING-KEBAB-CASE") {
                let upper = upper_str(name);
                hyphenated(upper.as_str())
            } else {
                String::from_str(name)
            }
        },
        None => String::from_str(name),
    }
}

/// The key of a map store's field named `name`: its own serde `rename`
/// when it has one, else the name under the container's `rename_all` rule.
pub fn field_key(name: &str, rename: Option<&str>, rename_all: Option<&str>) -> (r: String)
    ensures
        r@ == match rename {
            Some(own) => own@,
            None => renamed(name@, opt_str_view(rename_all)),
        },
{
    match rename {
        Some(own) => String::from_str(own),
        None => rename_field(name, rename_all),
    }
}

} // verus!
