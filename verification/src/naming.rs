//! Names in generated Elm code: case conversions (by the `heck` crate and
//! `str::to_lowercase`), Elm keywords and constructor names, and module
//! file paths.
use vstd::prelude::*;

use heck::{ToLowerCamelCase, ToUpperCamelCase};

use crate::text::{join, owned, push_char, views_of};

verus! {

/// What `heck`'s `to_upper_camel_case` gives for a string.
pub uninterp spec fn upper_camel_case(s: Seq<char>) -> Seq<char>;

/// What `heck`'s `to_lower_camel_case` gives for a string.
pub uninterp spec fn lower_camel_case(s: Seq<char>) -> Seq<char>;

/// What `str::to_lowercase` gives for a string.
pub uninterp spec fn lowercase(s: Seq<char>) -> Seq<char>;

/// `heck::ToUpperCamelCase::to_upper_camel_case` on a `str`: the words of
/// `s`, each capitalised, joined without separators.
#[verifier::external_body]
pub fn to_upper_camel_case(s: &str) -> (r: String)
    ensures
        r@ == upper_camel_case(s@),
{
    s.to_upper_camel_case()
}

/// `heck::ToLowerCamelCase::to_lower_camel_case` on a `str`: like upper
/// camel case with the first word in lower case.
#[verifier::external_body]
pub(crate) fn to_lower_camel_case(s: &str) -> (r: String)
    ensures
        r@ == lower_camel_case(s@),
{
    s.to_lower_camel_case()
}

/// `str::to_lowercase`.
#[verifier::external_body]
pub(crate) fn to_lowercase(s: &str) -> (r: String)
    ensures
        r@ == lowercase(s@),
{
    s.to_lowercase()
}

// ── Elm names ─────────────────────────────────────────────────────────

/// Words reserved by Elm.
pub open spec fn is_elm_keyword(s: Seq<char>) -> bool {
    ||| s == "type"@ ||| s == "module"@ ||| s == "exposing"@ ||| s == "import"@
    ||| s == "as"@ ||| s == "if"@ ||| s == "then"@ ||| s == "else"@
    ||| s == "case"@ ||| s == "of"@ ||| s == "let"@ ||| s == "in"@
    ||| s == "infix"@ ||| s == "infixl"@ ||| s == "infixr"@ ||| s == "port"@
    ||| s == "alias"@ ||| s == "where"@ ||| s == "true"@ ||| s == "false"@
}

/// An identifier that may stand in Elm: a keyword gets a trailing `_`.
pub open spec fn escaped_keyword(s: Seq<char>) -> Seq<char> {
    if is_elm_keyword(s) {
        s + "_"@
    } else {
        s
    }
}

/// Appends `_` to an Elm keyword; any other identifier is kept.
pub fn escape_elm_keyword(s: &str) -> (r: String)
    ensures
        r@ == escaped_keyword(s@),
{
    let keywords = [
        "type", "module", "exposing", "import", "as", "if", "then", "else", "case", "of", "let",
        "in", "infix", "infixl", "infixr", "port", "alias", "where", "true", "false",
    ];
    proof {
        reveal_strlit("type");
        reveal_strlit("module");
        reveal_strlit("exposing");
        reveal_strlit("import");
        reveal_strlit("as");
        reveal_strlit("if");
        reveal_strlit("then");
        reveal_strlit("else");
        reveal_strlit("case");
        reveal_strlit("of");
        reveal_strlit("let");
        reveal_strlit("in");
        reveal_strlit("infix");
        reveal_strlit("infixl");
        reveal_strlit("infixr");
        reveal_strlit("port");
        reveal_strlit("alias");
        reveal_strlit("where");
        reveal_strlit("true");
        reveal_strlit("false");
    }
    let mut i: usize = 0;
    while i < 20
        invariant
            i <= 20,
            forall|j: int| 0 <= j < i ==> keywords@[j]@ != s@,
            keywords@.len() == 20,
            keywords@[0]@ == "type"@, keywords@[1]@ == "module"@, keywords@[2]@ == "exposing"@,
            keywords@[3]@ == "import"@, keywords@[4]@ == "as"@, keywords@[5]@ == "if"@,
            keywords@[6]@ == "then"@, keywords@[7]@ == "else"@, keywords@[8]@ == "case"@,
            keywords@[9]@ == "of"@, keywords@[10]@ == "let"@, keywords@[11]@ == "in"@,
            keywords@[12]@ == "infix"@, keywords@[13]@ == "infixl"@, keywords@[14]@ == "infixr"@,
            keywords@[15]@ == "port"@, keywords@[16]@ == "alias"@, keywords@[17]@ == "where"@,
            keywords@[18]@ == "true"@, keywords@[19]@ == "false"@,
        decreases 20 - i,
    {
        if crate::text::str_eq(keywords[i], s) {
            let mut r = owned(s);
            r.append("_");
            return r;
        }
        i += 1;
    }
    owned(s)
}

/// The constructors of Elm's prelude that a union constructor must not
/// shadow.
pub open spec fn is_prelude_constructor(s: Seq<char>) -> bool {
    ||| s == "Ok"@ ||| s == "Err"@ ||| s == "Just"@ ||| s == "Nothing"@
    ||| s == "LT"@ ||| s == "EQ"@ ||| s == "GT"@
}

/// The Elm constructor of a union branch: the branch name in upper camel
/// case, with `Value` appended when that would shadow a prelude
/// constructor (`ok` gives `OkValue`, as `Ok` would hide `Result.Ok`).
pub open spec fn union_ctor(name: Seq<char>) -> Seq<char> {
    let ctor = upper_camel_case(name);
    if is_prelude_constructor(ctor) {
        ctor + "Value"@
    } else {
        ctor
    }
}

pub fn to_union_ctor(s: &str) -> (r: String)
    ensures
        r@ == union_ctor(s@),
{
    let ctor = to_upper_camel_case(s);
    let reserved = ["Ok", "Err", "Just", "Nothing", "LT", "EQ", "GT"];
    proof {
        reveal_strlit("Ok");
        reveal_strlit("Err");
        reveal_strlit("Just");
        reveal_strlit("Nothing");
        reveal_strlit("LT");
        reveal_strlit("EQ");
        reveal_strlit("GT");
    }
    let mut i: usize = 0;
    while i < 7
        invariant
            i <= 7,
            ctor@ == upper_camel_case(s@),
            forall|j: int| 0 <= j < i ==> reserved@[j]@ != ctor@,
            reserved@.len() == 7,
            reserved@[0]@ == "Ok"@, reserved@[1]@ == "Err"@, reserved@[2]@ == "Just"@,
            reserved@[3]@ == "Nothing"@, reserved@[4]@ == "LT"@, reserved@[5]@ == "EQ"@,
            reserved@[6]@ == "GT"@,
        decreases 7 - i,
    {
        if crate::text::str_eq(reserved[i], ctor.as_str()) {
            assert(is_prelude_constructor(ctor@)) by {
                assert(i == 0 || i == 1 || i == 2 || i == 3 || i == 4 || i == 5 || i == 6);
            }
            let mut r = ctor;
            r.append("Value");
            return r;
        }
        i += 1;
    }
    ctor
}

// ── Module paths ──────────────────────────────────────────────────────

/// The parts of `s` between occurrences of `sep`, in order (`str::split`
/// with a character).
pub open spec fn split_on(s: Seq<char>, sep: char) -> Seq<Seq<char>>
    decreases s.len(),
{
    if s.len() == 0 {
        seq![Seq::empty()]
    } else {
        let rest = split_on(s.drop_last(), sep);
        if s.last() == sep {
            rest.push(Seq::empty())
        } else {
            rest.update(rest.len() - 1, rest.last().push(s.last()))
        }
    }
}

proof fn lemma_split_on_nonempty(s: Seq<char>, sep: char)
    ensures
        split_on(s, sep).len() >= 1,
    decreases s.len(),
{
    if s.len() > 0 {
        lemma_split_on_nonempty(s.drop_last(), sep);
    }
}

/// Splits `s` at every `sep`.
pub fn split_at_char(s: &str, sep: char) -> (r: Vec<String>)
    ensures
        views_of(r@) == split_on(s@, sep),
{
    let mut parts: Vec<String> = Vec::new();
    let mut current = String::new();
    let n = s.unicode_len();
    let mut i: usize = 0;
    while i < n
        invariant
            i <= n,
            n == s@.len(),
            views_of(parts@).push(current@) == split_on(s@.take(i as int), sep),
        decreases n - i,
    {
        let c = s.get_char(i);
        proof {
            lemma_split_on_nonempty(s@.take(i as int), sep);
            assert(s@.take(i + 1).drop_last() =~= s@.take(i as int));
        }
        if c == sep {
            let done = current;
            parts.push(done);
            current = String::new();
            proof {
                assert(views_of(parts@).push(current@) =~= split_on(s@.take(i as int), sep).push(Seq::empty()));
            }
        } else {
            let ghost before = views_of(parts@).push(current@);
            push_char(&mut current, c);
            proof {
                assert(views_of(parts@).push(current@) =~= before.update(before.len() - 1, before.last().push(c)));
            }
        }
        i += 1;
    }
    let ghost before = views_of(parts@).push(current@);
    parts.push(current);
    assert(s@.take(n as int) =~= s@);
    assert(views_of(parts@) =~= before);
    parts
}


// ── Laws of Elm names ─────────────────────────────────────────────────

/// Elm's reserved words, as a list.
pub open spec fn elm_reserved_words() -> Seq<Seq<char>> {
    seq![
        "type"@, "module"@, "exposing"@, "import"@, "as"@, "if"@, "then"@, "else"@, "case"@, "of"@,
        "let"@, "in"@, "infix"@, "infixl"@, "infixr"@, "port"@, "alias"@, "where"@, "true"@, "false"@,
    ]
}

/// Each of Elm's reserved words is escaped with a trailing `_`, and every
/// other identifier is kept as it is.
pub proof fn law_reserved_words_escaped(s: Seq<char>)
    ensures
        elm_reserved_words().contains(s) ==> escaped_keyword(s) == s + "_"@,
        !elm_reserved_words().contains(s) ==> escaped_keyword(s) == s,
{
    let ws = elm_reserved_words();
    if ws.contains(s) {
        let i = choose|i: int| 0 <= i < ws.len() && ws[i] == s;
        assert(i == 0 || i == 1 || i == 2 || i == 3 || i == 4 || i == 5 || i == 6 || i == 7 || i == 8 || i == 9
            || i == 10 || i == 11 || i == 12 || i == 13 || i == 14 || i == 15 || i == 16 || i == 17 || i == 18
            || i == 19);
    } else {
        assert(ws[0] == "type"@);
        assert(ws[1] == "module"@);
        assert(ws[2] == "exposing"@);
        assert(ws[3] == "import"@);
        assert(ws[4] == "as"@);
        assert(ws[5] == "if"@);
        assert(ws[6] == "then"@);
        assert(ws[7] == "else"@);
        assert(ws[8] == "case"@);
        assert(ws[9] == "of"@);
        assert(ws[10] == "let"@);
        assert(ws[11] == "in"@);
        assert(ws[12] == "infix"@);
        assert(ws[13] == "infixl"@);
        assert(ws[14] == "infixr"@);
        assert(ws[15] == "port"@);
        assert(ws[16] == "alias"@);
        assert(ws[17] == "where"@);
        assert(ws[18] == "true"@);
        assert(ws[19] == "false"@);
    }
}


/// A union constructor is its branch name in upper camel case, with
/// `Value` added exactly when that name is one of the constructors of
/// Elm's prelude (`Ok`, `Err`, `Just`, `Nothing`, `LT`, `EQ`, `GT`).
pub proof fn law_union_ctor(name: Seq<char>)
    ensures
        ({
            let c = upper_camel_case(name);
            let prelude = seq!["Ok"@, "Err"@, "Just"@, "Nothing"@, "LT"@, "EQ"@, "GT"@];
            &&& prelude.contains(c) ==> union_ctor(name) == c + "Value"@
            &&& !prelude.contains(c) ==> union_ctor(name) == c
        }),
{
    let c = upper_camel_case(name);
    let prelude = seq!["Ok"@, "Err"@, "Just"@, "Nothing"@, "LT"@, "EQ"@, "GT"@];
    if prelude.contains(c) {
        let i = choose|i: int| 0 <= i < prelude.len() && prelude[i] == c;
        assert(i == 0 || i == 1 || i == 2 || i == 3 || i == 4 || i == 5 || i == 6);
    } else {
        assert(prelude[0] == "Ok"@);
        assert(prelude[1] == "Err"@);
        assert(prelude[2] == "Just"@);
        assert(prelude[3] == "Nothing"@);
        assert(prelude[4] == "LT"@);
        assert(prelude[5] == "EQ"@);
        assert(prelude[6] == "GT"@);
    }
}

} // verus!
