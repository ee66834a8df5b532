use vstd::prelude::*;

verus! {

/// Whether `a` comes before `b` in the order of strings: at the first
/// position where they differ, `a` has the smaller character, or `a` ends there.
pub open spec fn text_before(a: Seq<char>, b: Seq<char>) -> bool
    decreases a.len(),
{
    if b.len() == 0 {
        false
    } else if a.len() == 0 {
        true
    } else if a[0] != b[0] {
        (a[0] as int) < (b[0] as int)
    } else {
        text_before(a.drop_first(), b.drop_first())
    }
}

/// Of two different strings, exactly one comes before the other, and no
/// string comes before itself.
pub proof fn lemma_text_order_total(a: Seq<char>, b: Seq<char>)
    ensures
        !(text_before(a, b) && text_before(b, a)),
        a == b <==> (!text_before(a, b) && !text_before(b, a)),
    decreases a.len(),
{
    if a.len() > 0 && b.len() > 0 {
        if a[0] == b[0] {
            lemma_text_order_total(a.drop_first(), b.drop_first());
            if a.drop_first() == b.drop_first() {
                assert(a =~= seq![a[0]] + a.drop_first());
                assert(b =~= seq![b[0]] + b.drop_first());
            }
            if a == b {
                assert(a.drop_first() == b.drop_first());
            }
        } else {
            assert(a[0] as int != b[0] as int);
            assert(a != b);
        }
    } else if a.len() == 0 && b.len() == 0 {
        assert(a =~= b);
    } else {
        assert(a.len() != b.len());
    }
}

/// The order of strings is transitive.
pub proof fn lemma_text_order_transitive(a: Seq<char>, b: Seq<char>, c: Seq<char>)
    requires
        text_before(a, b),
        text_before(b, c),
    ensures
        text_before(a, c),
    decreases a.len(),
{
    if a.len() > 0 && b.len() > 0 && c.len() > 0 {
        if a[0] == b[0] && b[0] == c[0] {
            lemma_text_order_transitive(a.drop_first(), b.drop_first(), c.drop_first());
        }
    }
}

/// The strings of `parts` one after the other, with `separator` between
/// each two neighbours.
pub open spec fn joined(parts: Seq<Seq<char>>, separator: Seq<char>) -> Seq<char>
    decreases parts.len(),
{
    if parts.len() == 0 {
        Seq::empty()
    } else if parts.len() == 1 {
        parts[0]
    } else {
        joined(parts.drop_last(), separator) + separator + parts.last()
    }
}

/// What each of `parts` holds.
pub open spec fn texts(parts: Seq<String>) -> Seq<Seq<char>> {
    parts.map_values(|s: String| s@)
}

/// What `char::to_uppercase` yields for `c`: one character or several.
pub uninterp spec fn uppercase_of(c: char) -> Seq<char>;

/// `str::eq`: whether two strings hold the same characters.
#[verifier::external_body]
pub(crate) fn str_eq(a: &str, b: &str) -> (r: bool)
    ensures
        r == (a@ == b@),
{
    a == b
}

/// `str::lt`: strings are ordered by the first character in which they
/// differ, characters by their code points, and a string comes after each
/// of its proper prefixes.
#[verifier::external_body]
pub(crate) fn str_before(a: &str, b: &str) -> (r: bool)
    ensures
        r == text_before(a@, b@),
{
    a < b
}

/// `char::to_uppercase`, collected into a string.
#[verifier::external_body]
pub(crate) fn char_to_uppercase(c: char) -> (r: String)
    ensures
        r@ == uppercase_of(c),
{
    c.to_uppercase().collect()
}

/// `str::split` at one character, with each piece copied: the pieces hold no
/// separator, there is at least one, and joined by the separator they give
/// the string back.
#[verifier::external_body]
pub(crate) fn split_at_char(s: &str, separator: char) -> (parts: Vec<String>)
    ensures
        parts@.len() >= 1,
        forall|i: int| 0 <= i < parts@.len() ==> !(#[trigger] parts@[i])@.contains(separator),
        joined(texts(parts@), seq![separator]) == s@,
{
    s.split(separator).map(|piece| piece.to_string()).collect()
}

/// `itertools::join`: the strings one after the other, with `separator`
/// between each two neighbours.
#[verifier::external_body]
pub(crate) fn join_strings(parts: &Vec<String>, separator: &str) -> (r: String)
    ensures
        r@ == joined(texts(parts@), separator@),
{
    itertools::join(parts.iter(), separator)
}

/// The string with its first character in upper case.
pub open spec fn capitalised(s: Seq<char>) -> Seq<char> {
    if s.len() == 0 {
        Seq::empty()
    } else {
        uppercase_of(s[0]) + s.drop_first()
    }
}

/// Puts the first character of `s` into upper case.
pub fn capitalise_first_letter(s: &str) -> (r: String)
    ensures
        r@ == capitalised(s@),
{
    let len = s.unicode_len();
    if len == 0 {
        String::new()
    } else {
        let first = char_to_uppercase(s.get_char(0));
        let rest = s.substring_char(1, len);
        assert(rest@ =~= s@.drop_first());
        first.concat(rest)
    }
}

/// The pieces of `parts`, each with its first character in upper case.
pub open spec fn capitalised_all(parts: Seq<Seq<char>>) -> Seq<Seq<char>> {
    parts.map_values(|s: Seq<char>| capitalised(s))
}

/// The pieces into which `separator` splits `s`: they hold no separator, and
/// joined by it they give `s` back.
pub open spec fn is_split_of(parts: Seq<Seq<char>>, s: Seq<char>, separator: char) -> bool {
    &&& parts.len() >= 1
    &&& forall|i: int| 0 <= i < parts.len() ==> !(#[trigger] parts[i]).contains(separator)
    &&& joined(parts, seq![separator]) == s
}

/// Turns `underscore_case` into `CamelCase`: the pieces between the
/// underscores, each with its first character in upper case, one after the other.
pub fn name_from_field_name(field_name: &str) -> (r: String)
    ensures
        exists|parts: Seq<Seq<char>>|
            is_split_of(parts, field_name@, '_') && r@ == joined(
                capitalised_all(parts),
                Seq::empty(),
            ),
{
    let parts = split_at_char(field_name, '_');
    let mut capitals: Vec<String> = Vec::new();
    let mut i: usize = 0;
    while i < parts.len()
        invariant
            i <= parts@.len(),
            capitals@.len() == i,
            forall|j: int| 0 <= j < i ==> (#[trigger] capitals@[j])@ == capitalised(parts@[j]@),
        decreases parts@.len() - i,
    {
        capitals.push(capitalise_first_letter(parts[i].as_str()));
        i += 1;
    }
    let r = join_strings(&capitals, "");
    proof {
        reveal_strlit("");
        assert(""@ =~= Seq::<char>::empty());
        assert(texts(capitals@) =~= capitalised_all(texts(parts@)));
        let witness = texts(parts@);
        assert forall|i: int| 0 <= i < witness.len() implies !(#[trigger] witness[i]).contains(
            '_',
        ) by {
            assert(witness[i] == parts@[i]@);
        }
        assert(is_split_of(witness, field_name@, '_'));
    }
    r
}

} // verus!
