//! Renaming the top-level symbols of a struct that is rendered into
//! another struct's module: the prefix table of a member's symbols,
//! identifier renaming that leaves qualified references alone, and the
//! removal of references qualified by the module itself.
use vstd::prelude::*;

use crate::text::{owned, push_char, views_of};

verus! {

// ── Identifiers ───────────────────────────────────────────────────────

/// ASCII letters and digits and `_` make up identifiers.
pub open spec fn is_ident_char(c: char) -> bool {
    ('a' <= c && c <= 'z') || ('A' <= c && c <= 'Z') || ('0' <= c && c <= '9') || c == '_'
}

fn ident_char(c: char) -> (b: bool)
    ensures
        b == is_ident_char(c),
{
    ('a' <= c && c <= 'z') || ('A' <= c && c <= 'Z') || ('0' <= c && c <= '9') || c == '_'
}

/// How many identifier characters `s` starts with.
pub open spec fn ident_len(s: Seq<char>) -> nat
    decreases s.len(),
{
    if s.len() == 0 || !is_ident_char(s[0]) {
        0
    } else {
        1 + ident_len(s.drop_first())
    }
}

/// All characters of `s` are identifier characters.
pub open spec fn all_ident(s: Seq<char>) -> bool {
    forall|i: int| 0 <= i < s.len() ==> is_ident_char(#[trigger] s[i])
}

pub proof fn lemma_ident_len_bound(s: Seq<char>)
    ensures
        ident_len(s) <= s.len(),
        s.len() > 0 && is_ident_char(s[0]) ==> ident_len(s) >= 1,
        all_ident(s.take(ident_len(s) as int)),
        ident_len(s) < s.len() ==> !is_ident_char(s[ident_len(s) as int]),
    decreases s.len(),
{
    if s.len() > 0 && is_ident_char(s[0]) {
        lemma_ident_len_bound(s.drop_first());
        let n = ident_len(s) as int;
        assert forall|i: int| 0 <= i < n implies is_ident_char(#[trigger] s.take(n)[i]) by {
            if i > 0 {
                assert(s.take(n)[i] == s.drop_first().take(n - 1)[i - 1]);
            }
        }
        if n < s.len() {
            assert(s[n] == s.drop_first()[n - 1]);
        }
    }
}

proof fn lemma_ident_len_prefix(w: Seq<char>, s: Seq<char>)
    requires
        all_ident(w),
    ensures
        ident_len(w + s) == w.len() + ident_len(s),
    decreases w.len(),
{
    if w.len() > 0 {
        assert((w + s).drop_first() =~= w.drop_first() + s);
        assert(is_ident_char(w[0]));
        lemma_ident_len_prefix(w.drop_first(), s);
    } else {
        assert(w + s =~= s);
    }
}

/// The value of the first entry for `key`, if any.
pub open spec fn lookup(entries: Seq<(String, String)>, key: Seq<char>) -> Option<Seq<char>>
    decreases entries.len(),
{
    if entries.len() == 0 {
        None
    } else if entries[0].0@ == key {
        Some(entries[0].1@)
    } else {
        lookup(entries.drop_first(), key)
    }
}

/// The value of the first entry for `key`.
pub fn lookup_entry(entries: &Vec<(String, String)>, key: &str) -> (r: Option<String>)
    ensures
        r matches Some(v) ==> lookup(entries@, key@) == Some(v@),
        r is None ==> lookup(entries@, key@) is None,
{
    let mut i: usize = 0;
    assert(entries@.skip(0) =~= entries@);
    while i < entries.len()
        invariant
            i <= entries.len(),
            lookup(entries@, key@) == lookup(entries@.skip(i as int), key@),
        decreases entries.len() - i,
    {
        assert(entries@.skip(i as int).drop_first() =~= entries@.skip(i + 1));
        if crate::text::str_eq(entries[i].0.as_str(), key) {
            return Some(entries[i].1.clone());
        }
        i += 1;
    }
    None
}

/// What an identifier becomes: kept when the character before it is `.`
/// (a qualified reference such as `Module.name`), else its entry in the
/// table, else kept.
pub open spec fn replacement(
    word: Seq<char>,
    table: spec_fn(Seq<char>) -> Option<Seq<char>>,
    prev: Option<char>,
) -> Seq<char> {
    if prev == Some('.') {
        word
    } else {
        match table(word) {
            Some(r) => r,
            None => word,
        }
    }
}

/// `text` with every identifier (a maximal run of identifier characters)
/// replaced as by `replacement`; `prev` is the character before `text`.
pub open spec fn renamed(
    text: Seq<char>,
    table: spec_fn(Seq<char>) -> Option<Seq<char>>,
    prev: Option<char>,
) -> Seq<char>
    decreases text.len(),
{
    if text.len() == 0 {
        Seq::empty()
    } else if is_ident_char(text[0]) {
        let n = ident_len(text);
        if 1 <= n <= text.len() {
            replacement(text.take(n as int), table, prev) + renamed(
                text.skip(n as int),
                table,
                Some(text[n - 1]),
            )
        } else {
            text
        }
    } else {
        seq![text[0]] + renamed(text.drop_first(), table, Some(text[0]))
    }
}

/// The identifiers of a text: its maximal runs of identifier characters.
pub open spec fn identifiers(text: Seq<char>) -> Set<Seq<char>>
    decreases text.len(),
{
    if text.len() == 0 {
        Set::empty()
    } else if is_ident_char(text[0]) {
        let n = ident_len(text);
        if 1 <= n <= text.len() {
            identifiers(text.skip(n as int)).insert(text.take(n as int))
        } else {
            Set::empty()
        }
    } else {
        identifiers(text.drop_first())
    }
}

/// Renaming with a table that holds none of the text's identifiers gives
/// the text back.
proof fn lemma_renaming_unknown_identifiers_keeps_text(
    text: Seq<char>,
    table: spec_fn(Seq<char>) -> Option<Seq<char>>,
    prev: Option<char>,
)
    requires
        forall|w: Seq<char>| #[trigger] identifiers(text).contains(w) ==> table(w) is None,
    ensures
        renamed(text, table, prev) == text,
    decreases text.len(),
{
    if text.len() > 0 {
        if is_ident_char(text[0]) {
            lemma_ident_len_bound(text);
            let n = ident_len(text);
            let rest = text.skip(n as int);
            assert forall|w: Seq<char>| #[trigger] identifiers(rest).contains(w) implies table(w) is None by {
                assert(identifiers(text).contains(w));
            }
            lemma_renaming_unknown_identifiers_keeps_text(rest, table, Some(text[n - 1]));
            assert(identifiers(text).contains(text.take(n as int)));
            assert(replacement(text.take(n as int), table, prev) == text.take(n as int));
            assert(text.take(n as int) + rest =~= text);
        } else {
            let rest = text.drop_first();
            assert forall|w: Seq<char>| #[trigger] identifiers(rest).contains(w) implies table(w) is None by {
                assert(identifiers(text).contains(w));
            }
            lemma_renaming_unknown_identifiers_keeps_text(rest, table, Some(text[0]));
            assert(seq![text[0]] + rest =~= text);
        }
    }
}

/// A key that no entry has is not found.
proof fn lemma_lookup_absent(entries: Seq<(String, String)>, key: Seq<char>)
    requires
        forall|k: int| 0 <= k < entries.len() ==> (#[trigger] entries[k]).0@ != key,
    ensures
        lookup(entries, key) is None,
    decreases entries.len(),
{
    if entries.len() > 0 {
        assert forall|k: int| 0 <= k < entries.drop_first().len() implies (#[trigger] entries.drop_first()[k]).0@ != key by {
            assert(entries.drop_first()[k] == entries[k + 1]);
        }
        lemma_lookup_absent(entries.drop_first(), key);
    }
}

/// `rename_identifiers` gives the text back when no entry of its table
/// has one of the text's identifiers (its maximal runs of letters, digits
/// and underscores) as its key; an empty table is one such.
pub proof fn law_renaming_unknown_identifiers_keeps_text(text: Seq<char>, table: Seq<(String, String)>)
    requires
        forall|w: Seq<char>, k: int|
            #[trigger] identifiers(text).contains(w) && 0 <= k < table.len() ==> (#[trigger] table[k]).0@ != w,
    ensures
        renamed(text, |w: Seq<char>| lookup(table, w), None) == text,
{
    let t = |w: Seq<char>| lookup(table, w);
    assert forall|w: Seq<char>| #[trigger] identifiers(text).contains(w) implies t(w) is None by {
        lemma_lookup_absent(table, w);
    }
    lemma_renaming_unknown_identifiers_keeps_text(text, t, None);
}

proof fn lemma_renamed_word_then_char(
    w: Seq<char>,
    c: char,
    rest: Seq<char>,
    table: spec_fn(Seq<char>) -> Option<Seq<char>>,
    prev: Option<char>,
)
    requires
        w.len() > 0,
        all_ident(w),
        !is_ident_char(c),
    ensures
        renamed(w + (seq![c] + rest), table, prev) == replacement(w, table, prev) + (seq![c] + renamed(
            rest,
            table,
            Some(c),
        )),
{
    let u = seq![c] + rest;
    let t = w + u;
    lemma_ident_len_prefix(w, u);
    assert(ident_len(u) == 0) by {
        assert(u[0] == c);
    }
    assert(is_ident_char(t[0])) by {
        assert(t[0] == w[0]);
    }
    assert(t.take(w.len() as int) =~= w);
    assert(t.skip(w.len() as int) =~= u);
    assert(renamed(t, table, prev) == replacement(w, table, prev) + renamed(u, table, Some(t[w.len() - 1])));
    assert(u.drop_first() =~= rest);
    assert(renamed(u, table, Some(t[w.len() - 1])) == seq![c] + renamed(rest, table, Some(c)));
}

proof fn lemma_renamed_word(w: Seq<char>, table: spec_fn(Seq<char>) -> Option<Seq<char>>, prev: Option<char>)
    requires
        all_ident(w),
    ensures
        renamed(w, table, prev) == if w.len() == 0 {
            Seq::<char>::empty()
        } else {
            replacement(w, table, prev)
        },
{
    if w.len() > 0 {
        lemma_ident_len_prefix(w, Seq::empty());
        assert(w + Seq::<char>::empty() =~= w);
        assert(ident_len(Seq::<char>::empty()) == 0);
        assert(ident_len(w) == w.len());
        assert(is_ident_char(w[0]));
        assert(w.take(w.len() as int) =~= w);
        assert(w.skip(w.len() as int) =~= Seq::<char>::empty());
        assert(renamed(Seq::<char>::empty(), table, Some(w[w.len() - 1])) == Seq::<char>::empty());
        assert(replacement(w, table, prev) + Seq::<char>::empty() =~= replacement(w, table, prev));
    }
}

/// Replaces each identifier of `text` that has an entry in `table` and is
/// not qualified (right after a `.`) by the entry's value.
pub fn rename_identifiers(text: &str, table: &Vec<(String, String)>) -> (r: String)
    ensures
        r@ == renamed(text@, |w: Seq<char>| lookup(table@, w), None),
{
    let ghost t = |w: Seq<char>| lookup(table@, w);
    let mut out = String::new();
    let mut word = String::new();
    let mut prev: Option<char> = None;
    let n = text.unicode_len();
    let mut i: usize = 0;
    assert(out@ + renamed(word@ + text@.skip(0), t, prev) =~= renamed(text@, t, None)) by {
        assert(word@ + text@.skip(0) =~= text@);
    }
    while i < n
        invariant
            i <= n,
            n == text@.len(),
            t == (|w: Seq<char>| lookup(table@, w)),
            all_ident(word@),
            out@ + renamed(word@ + text@.skip(i as int), t, prev) == renamed(text@, t, None),
        decreases n - i,
    {
        let c = text.get_char(i);
        assert(text@.skip(i as int) =~= seq![c] + text@.skip(i + 1));
        if ident_char(c) {
            let ghost w0 = word@;
            push_char(&mut word, c);
            assert(word@ + text@.skip(i + 1) =~= w0 + text@.skip(i as int));
        } else {
            let ghost w0 = word@;
            let ghost o0 = out@;
            let ghost p0 = prev;
            let ghost rest = text@.skip(i + 1);
            if !word.as_str().is_empty() {
                let qualified = prev == Some('.');
                proof {
                    lemma_renamed_word_then_char(w0, c, rest, t, p0);
                }
                if qualified {
                    out.append(word.as_str());
                } else {
                    match lookup_entry(table, word.as_str()) {
                        Some(rep) => out.append(rep.as_str()),
                        None => out.append(word.as_str()),
                    }
                }
                assert(out@ == o0 + replacement(w0, t, p0));
                word = String::new();
            } else {
                assert(w0 + text@.skip(i as int) =~= seq![c] + rest);
                assert((seq![c] + rest).drop_first() =~= rest);
                assert(renamed(seq![c] + rest, t, p0) == seq![c] + renamed(rest, t, Some(c)));
            }
            let ghost o1 = out@;
            push_char(&mut out, c);
            prev = Some(c);
            proof {
                assert(word@ + rest =~= rest);
                if w0.len() > 0 {
                    assert(o0 + (replacement(w0, t, p0) + (seq![c] + renamed(rest, t, Some(c))))
                        =~= out@ + renamed(rest, t, Some(c)));
                } else {
                    assert(o0 + (seq![c] + renamed(rest, t, Some(c))) =~= out@ + renamed(rest, t, Some(c)));
                }
            }
        }
        i += 1;
    }
    proof {
        assert(word@ + text@.skip(n as int) =~= word@);
        lemma_renamed_word(word@, t, prev);
    }
    let ghost o0 = out@;
    if !word.as_str().is_empty() {
        let qualified = prev == Some('.');
        if qualified {
            out.append(word.as_str());
        } else {
            match lookup_entry(table, word.as_str()) {
                Some(rep) => out.append(rep.as_str()),
                None => out.append(word.as_str()),
            }
        }
    }
    proof {
        if word@.len() == 0 {
            assert(o0 + Seq::<char>::empty() =~= o0);
        }
        assert(out@ =~= renamed(text@, t, None));
    }
    out
}

// ── The prefix table of a member ──────────────────────────────────────

/// What `char::to_lowercase` gives for a character.
pub uninterp spec fn char_lowercase(c: char) -> Seq<char>;

/// What `char::to_uppercase` gives for a character.
pub uninterp spec fn char_uppercase(c: char) -> Seq<char>;

/// `char::to_lowercase`, collected into a `String`.
#[verifier::external_body]
fn lowercase_char(c: char) -> (r: String)
    ensures
        r@ == char_lowercase(c),
{
    c.to_lowercase().collect()
}

/// `char::to_uppercase`, collected into a `String`.
#[verifier::external_body]
fn uppercase_char(c: char) -> (r: String)
    ensures
        r@ == char_uppercase(c),
{
    c.to_uppercase().collect()
}

/// `s` with its first character in lower case.
pub open spec fn lower_first(s: Seq<char>) -> Seq<char> {
    if s.len() == 0 {
        s
    } else {
        char_lowercase(s[0]) + s.drop_first()
    }
}

/// `s` with its first character in upper case.
pub open spec fn upper_first(s: Seq<char>) -> Seq<char> {
    if s.len() == 0 {
        s
    } else {
        char_uppercase(s[0]) + s.drop_first()
    }
}

/// A symbol without what follows its first `(` (`Union(..)` is `Union`).
pub open spec fn symbol_head(s: Seq<char>) -> Seq<char>
    decreases s.len(),
{
    if s.len() == 0 || s[0] == '(' {
        Seq::empty()
    } else {
        seq![s[0]] + symbol_head(s.drop_first())
    }
}

/// The name a member's symbol takes in the merged module: a type-level
/// symbol (capitalised) gets the member's name in front, any other symbol
/// is camel-cased behind the member's name in lower case (`encode` of
/// `Prop` becomes `propEncode`).
pub open spec fn symbol_target(member: Seq<char>, sym: Seq<char>) -> Seq<char> {
    if sym.len() > 0 && 'A' <= sym[0] && sym[0] <= 'Z' {
        member + sym
    } else {
        lower_first(member) + upper_first(sym)
    }
}

/// The module-level symbols every struct has besides its exports.
pub open spec fn internal_symbols() -> Seq<Seq<char>> {
    seq!["Union"@, "dataWords"@, "pointerWords"@, "getWhich"@, "layout"@]
}

/// The symbols a member renames: the heads of its exports and the
/// module-level symbols.
pub open spec fn renamed_symbols(exports: Seq<Seq<char>>) -> Seq<Seq<char>> {
    exports.map_values(|e: Seq<char>| symbol_head(e)) + internal_symbols()
}

proof fn lemma_lookup_push(t: Seq<(String, String)>, e: (String, String), w: Seq<char>)
    ensures
        lookup(t.push(e), w) == if lookup(t, w) is Some {
            lookup(t, w)
        } else if e.0@ == w {
            Some(e.1@)
        } else {
            None
        },
    decreases t.len(),
{
    if t.len() > 0 {
        assert(t.push(e).drop_first() =~= t.drop_first().push(e));
        assert(t.push(e)[0] == t[0]);
        lemma_lookup_push(t.drop_first(), e, w);
    } else {
        assert(t.push(e)[0] == e);
        assert(t.push(e).drop_first() =~= Seq::<(String, String)>::empty());
        assert(lookup(Seq::<(String, String)>::empty(), w) is None);
    }
}

proof fn lemma_take_push_contains(s: Seq<Seq<char>>, i: int, w: Seq<char>)
    requires
        0 <= i < s.len(),
    ensures
        s.take(i + 1).contains(w) == (s.take(i).contains(w) || s[i] == w),
{
    let a = s.take(i);
    let b = s.take(i + 1);
    if b.contains(w) {
        let j = choose|j: int| 0 <= j < b.len() && b[j] == w;
        if j < i {
            assert(a[j] == w);
        }
    }
    if a.contains(w) {
        let j = choose|j: int| 0 <= j < a.len() && a[j] == w;
        assert(b[j] == w);
    }
    if s[i] == w {
        assert(b[i] == w);
    }
}

/// `s` from position `start` on, appended to `out`.
fn append_from(out: &mut String, s: &str, start: usize)
    requires
        start <= s@.len(),
    ensures
        final(out)@ == old(out)@ + s@.skip(start as int),
{
    let n = s.unicode_len();
    let mut i = start;
    while i < n
        invariant
            start <= i <= n,
            n == s@.len(),
            out@ == old(out)@ + s@.subrange(start as int, i as int),
        decreases n - i,
    {
        let ghost before = out@;
        push_char(out, s.get_char(i));
        assert(out@ =~= old(out)@ + s@.subrange(start as int, i + 1));
        i += 1;
    }
    assert(s@.subrange(start as int, n as int) =~= s@.skip(start as int));
}

fn lower_first_of(s: &str) -> (r: String)
    ensures
        r@ == lower_first(s@),
{
    if s.unicode_len() == 0 {
        return String::new();
    }
    let mut r = lowercase_char(s.get_char(0));
    append_from(&mut r, s, 1);
    r
}

fn upper_first_of(s: &str) -> (r: String)
    ensures
        r@ == upper_first(s@),
{
    if s.unicode_len() == 0 {
        return String::new();
    }
    let mut r = uppercase_char(s.get_char(0));
    append_from(&mut r, s, 1);
    r
}

pub fn head_of(s: &str) -> (r: String)
    ensures
        r@ == symbol_head(s@),
{
    let n = s.unicode_len();
    let mut r = String::new();
    let mut i: usize = 0;
    assert(s@.skip(0) =~= s@);
    assert(r@ + symbol_head(s@) =~= symbol_head(s@));
    while i < n
        invariant
            i <= n,
            n == s@.len(),
            r@ + symbol_head(s@.skip(i as int)) == symbol_head(s@),
        decreases n - i,
    {
        let c = s.get_char(i);
        assert(s@.skip(i as int).drop_first() =~= s@.skip(i + 1));
        if c == '(' {
            assert(r@ + Seq::<char>::empty() =~= r@);
            return r;
        }
        let ghost before = r@;
        push_char(&mut r, c);
        assert(before + (seq![c] + symbol_head(s@.skip(i + 1))) =~= r@ + symbol_head(s@.skip(i + 1)));
        i += 1;
    }
    assert(r@ + Seq::<char>::empty() =~= r@);
    r
}

/// Records `sym` with its target unless it is already in the table.
fn add_symbol(table: &mut Vec<(String, String)>, sym: String, member_name: &str, lower: &String)
    requires
        lower@ == lower_first(member_name@),
    ensures
        forall|w: Seq<char>|
            lookup(final(table)@, w) == if lookup(old(table)@, w) is Some {
                lookup(old(table)@, w)
            } else if sym@ == w {
                Some(symbol_target(member_name@, sym@))
            } else {
                None
            },
{
    if lookup_entry(table, sym.as_str()).is_some() {
        return;
    }
    let capitalised = sym.as_str().unicode_len() > 0 && {
        let c = sym.as_str().get_char(0);
        'A' <= c && c <= 'Z'
    };
    let target = if capitalised {
        let mut t = owned(member_name);
        t.append(sym.as_str());
        t
    } else {
        let mut t = lower.clone();
        let up = upper_first_of(sym.as_str());
        t.append(up.as_str());
        t
    };
    let ghost t0 = table@;
    let entry = (sym, target);
    proof {
        assert forall|w: Seq<char>| lookup(t0.push(entry), w) == if lookup(t0, w) is Some {
            lookup(t0, w)
        } else if entry.0@ == w {
            Some(symbol_target(member_name@, entry.0@))
        } else {
            None
        } by {
            lemma_lookup_push(t0, entry, w);
        }
    }
    table.push(entry);
}

/// The table renaming a merged member's symbols (the heads of `symbols`,
/// its exports, and the module-level symbols): each once, to its target
/// name.
pub fn member_symbol_prefix(member_name: &str, symbols: &Vec<String>) -> (r: Vec<(String, String)>)
    ensures
        forall|w: Seq<char>|
            #[trigger] lookup(r@, w) == if renamed_symbols(views_of(symbols@)).contains(w) {
                Some(symbol_target(member_name@, w))
            } else {
                None
            },
{
    let lower = lower_first_of(member_name);
    let ghost all = renamed_symbols(views_of(symbols@));
    let mut table: Vec<(String, String)> = Vec::new();
    let mut i: usize = 0;
    while i < symbols.len()
        invariant
            i <= symbols.len(),
            lower@ == lower_first(member_name@),
            all == renamed_symbols(views_of(symbols@)),
            forall|w: Seq<char>|
                lookup(table@, w) == if all.take(i as int).contains(w) {
                    Some(symbol_target(member_name@, w))
                } else {
                    None
                },
        decreases symbols.len() - i,
    {
        let head = head_of(symbols[i].as_str());
        proof {
            assert(all[i as int] == head@);
            assert forall|w: Seq<char>| #[trigger] all.take(i + 1).contains(w) == (all.take(i as int).contains(w) || head@ == w) by {
                lemma_take_push_contains(all, i as int, w);
            }
        }
        add_symbol(&mut table, head, member_name, &lower);
        i += 1;
    }
    let extras = [owned("Union"), owned("dataWords"), owned("pointerWords"), owned("getWhich"), owned("layout")];
    let n = symbols.len();
    let mut k: usize = 0;
    while k < 5
        invariant
            k <= 5,
            n == symbols.len(),
            lower@ == lower_first(member_name@),
            all == renamed_symbols(views_of(symbols@)),
            all.len() == n + 5,
            forall|j: int| 0 <= j < 5 ==> extras@[j]@ == #[trigger] internal_symbols()[j],
            forall|w: Seq<char>|
                lookup(table@, w) == if all.take(n + k).contains(w) {
                    Some(symbol_target(member_name@, w))
                } else {
                    None
                },
        decreases 5 - k,
    {
        let sym = extras[k].clone();
        proof {
            assert(all[n + k] == internal_symbols()[k as int]);
            assert(sym@ == extras@[k as int]@);
            assert(sym@ == all[n + k]);
            assert forall|w: Seq<char>| #[trigger] all.take(n + k + 1).contains(w) == (all.take(n + k).contains(w) || sym@ == w) by {
                lemma_take_push_contains(all, n + k, w);
            }
        }
        add_symbol(&mut table, sym, member_name, &lower);
        proof {
            assert(all.take(n + (k + 1)) == all.take(n + k + 1));
        }
        k += 1;
    }
    assert(all.take(n + 5) =~= all);
    table
}

// ── References qualified by the module itself ─────────────────────────

/// The first position at or after `i` at which `p` occurs in `s`.
pub open spec fn find_from(s: Seq<char>, p: Seq<char>, i: int) -> Option<int>
    decreases s.len() + 1 - i,
{
    if i < 0 || i + p.len() > s.len() {
        None
    } else if s.subrange(i, i + p.len()) == p {
        Some(i)
    } else {
        find_from(s, p, i + 1)
    }
}

pub proof fn lemma_find_from(s: Seq<char>, p: Seq<char>, i: int)
    ensures
        find_from(s, p, i) matches Some(k) ==> i <= k && k + p.len() <= s.len() && 0 <= k,
    decreases s.len() + 1 - i,
{
    if !(i < 0 || i + p.len() > s.len()) && s.subrange(i, i + p.len()) != p {
        lemma_find_from(s, p, i + 1);
    }
}

/// `text` with each occurrence of `prefix` followed by one of `symbols`
/// (taking occurrences from the left, each with the identifier after it)
/// replaced by the symbol alone; other occurrences are kept.
pub open spec fn stripped(text: Seq<char>, prefix: Seq<char>, symbols: Seq<Seq<char>>) -> Seq<char>
    decreases text.len(),
{
    if prefix.len() == 0 {
        text
    } else {
        match find_from(text, prefix, 0) {
            None => text,
            Some(pos) => {
                proof {
                    lemma_find_from(text, prefix, 0);
                    lemma_ident_len_bound(text.skip(pos + prefix.len()));
                }
                let after = text.skip(pos + prefix.len());
                let n = ident_len(after);
                let ident = after.take(n as int);
                text.take(pos) + (if symbols.contains(ident) {
                    ident
                } else {
                    prefix + ident
                }) + stripped(after.skip(n as int), prefix, symbols)
            },
        }
    }
}

fn matches_at(s: &str, p: &str, i: usize) -> (b: bool)
    requires
        i + p@.len() <= s@.len(),
    ensures
        b == (s@.subrange(i as int, i + p@.len()) == p@),
{
    let m = p.unicode_len();
    let n = s.unicode_len();
    let mut t: usize = 0;
    while t < m
        invariant
            t <= m,
            m == p@.len(),
            n == s@.len(),
            i + m <= n,
            forall|u: int| 0 <= u < t ==> s@[i + u] == p@[u],
        decreases m - t,
    {
        if s.get_char(i + t) != p.get_char(t) {
            assert(s@.subrange(i as int, i + m)[t as int] != p@[t as int]);
            return false;
        }
        t += 1;
    }
    assert(s@.subrange(i as int, i + m) =~= p@);
    true
}

proof fn lemma_ident_len_exact(t: Seq<char>, m: int)
    requires
        0 <= m <= t.len(),
        forall|u: int| 0 <= u < m ==> is_ident_char(#[trigger] t[u]),
        m == t.len() || !is_ident_char(t[m]),
    ensures
        ident_len(t) == m,
    decreases m,
{
    if m > 0 {
        assert forall|u: int| 0 <= u < m - 1 implies is_ident_char(#[trigger] t.drop_first()[u]) by {
            assert(t.drop_first()[u] == t[u + 1]);
        }
        if m < t.len() {
            assert(t.drop_first()[m - 1] == t[m]);
        }
        lemma_ident_len_exact(t.drop_first(), m - 1);
        assert(is_ident_char(t[0]));
    }
}

/// Removes `prefix` (the module's own name and a dot) in front of the
/// module's own symbols; references to anything else keep their full
/// path. The prefix is never empty: with an empty prefix nothing would
/// move the scan forward.
#[verifier::spinoff_prover]
#[verifier::rlimit(40)]
pub fn strip_canon_prefix(body: &str, canon_prefix: &str, symbols: &Vec<String>) -> (r: String)
    requires
        canon_prefix@.len() > 0,
    ensures
        r@ == stripped(body@, canon_prefix@, views_of(symbols@)),
{
    let ghost syms = views_of(symbols@);
    let n = body.unicode_len();
    let m = canon_prefix.unicode_len();
    let mut out = String::new();
    let mut start: usize = 0;
    assert(body@.skip(0) =~= body@);
    assert(out@ + stripped(body@, canon_prefix@, syms) =~= stripped(body@, canon_prefix@, syms));
    loop
        invariant
            start <= n,
            n == body@.len(),
            m == canon_prefix@.len(),
            m > 0,
            syms == views_of(symbols@),
            out@ + stripped(body@.skip(start as int), canon_prefix@, syms) == stripped(body@, canon_prefix@, syms),
        decreases n - start,
    {
        let ghost rest = body@.skip(start as int);
        // Find the next occurrence of the prefix.
        let mut j: usize = start;
        let mut found = false;
        while m <= n - j && !found
            invariant
                start <= j <= n,
                n == body@.len(),
                m == canon_prefix@.len(),
                m > 0,
                rest == body@.skip(start as int),
                found ==> j + m <= n && body@.subrange(j as int, j + m) == canon_prefix@,
                find_from(rest, canon_prefix@, 0) == find_from(rest, canon_prefix@, j - start),
            decreases n - j, if found { 0nat } else { 1nat },
        {
            assert(rest.subrange(j - start, j - start + m) =~= body@.subrange(j as int, j + m));
            if matches_at(body, canon_prefix, j) {
                found = true;
            } else {
                j += 1;
            }
        }
        if !found {
            proof {
                assert(find_from(rest, canon_prefix@, j - start) is None);
            }
            append_from(&mut out, body, start);
            return out;
        }
        proof {
            assert(rest.subrange(j - start, j - start + m) =~= body@.subrange(j as int, j + m));
            assert(find_from(rest, canon_prefix@, 0) == Some(j - start));
        }
        // The identifier after the prefix.
        let ident_start = j + m;
        let mut k = ident_start;
        while k < n && ident_char(body.get_char(k))
            invariant
                ident_start <= k <= n,
                n == body@.len(),
                forall|u: int| ident_start <= u < k ==> is_ident_char(#[trigger] body@[u]),
            decreases n - k,
        {
            k += 1;
        }
        let ghost after = rest.skip(j - start + m);
        proof {
            assert(after =~= body@.skip(ident_start as int));
            assert forall|u: int| 0 <= u < k - ident_start implies is_ident_char(#[trigger] after[u]) by {
                assert(after[u] == body@[ident_start + u]);
            }
            if k < n {
                assert(after[k - ident_start] == body@[k as int]);
            }
            lemma_ident_len_exact(after, k - ident_start);
        }
        let mut ident = String::new();
        let mut q = ident_start;
        while q < k
            invariant
                ident_start <= q <= k,
                k <= n,
                n == body@.len(),
                ident@ == body@.subrange(ident_start as int, q as int),
            decreases k - q,
        {
            push_char(&mut ident, body.get_char(q));
            assert(ident@ =~= body@.subrange(ident_start as int, q + 1));
            q += 1;
        }
        let ghost o0 = out@;
        let mut before = String::new();
        let mut q = start;
        while q < j
            invariant
                start <= q <= j,
                j <= n,
                n == body@.len(),
                before@ == body@.subrange(start as int, q as int),
            decreases j - q,
        {
            push_char(&mut before, body.get_char(q));
            assert(before@ =~= body@.subrange(start as int, q + 1));
            q += 1;
        }
        out.append(before.as_str());
        if crate::text::contains_str(symbols, ident.as_str()) {
            out.append(ident.as_str());
        } else {
            out.append(canon_prefix);
            out.append(ident.as_str());
        }
        proof {
            assert(rest.take(j - start) =~= body@.subrange(start as int, j as int));
            assert(after.take(k - ident_start) =~= body@.subrange(ident_start as int, k as int));
            assert(after.skip(k - ident_start) =~= body@.skip(k as int));
            let piece = if syms.contains(ident@) { ident@ } else { canon_prefix@ + ident@ };
            assert(stripped(rest, canon_prefix@, syms) == rest.take(j - start) + piece + stripped(body@.skip(k as int), canon_prefix@, syms));
            assert(out@ =~= o0 + rest.take(j - start) + piece);
        }
        start = k;
    }
}

// ── Replacing text ────────────────────────────────────────────────────

/// `text` with every occurrence of `from`, taken from the left without
/// overlapping, replaced by `to` (`str::replace`, for a non-empty `from`).
pub open spec fn replaced(text: Seq<char>, from: Seq<char>, to: Seq<char>) -> Seq<char>
    decreases text.len(),
{
    if from.len() == 0 {
        text
    } else {
        match find_from(text, from, 0) {
            None => text,
            Some(pos) => {
                proof {
                    lemma_find_from(text, from, 0);
                }
                text.take(pos) + to + replaced(text.skip(pos + from.len()), from, to)
            },
        }
    }
}

/// Replaces every occurrence of a non-empty `from` in `text` by `to`.
pub fn replace_all(text: &str, from: &str, to: &str) -> (r: String)
    requires
        from@.len() > 0,
    ensures
        r@ == replaced(text@, from@, to@),
{
    let n = text.unicode_len();
    let m = from.unicode_len();
    let mut out = String::new();
    let mut start: usize = 0;
    assert(text@.skip(0) =~= text@);
    assert(out@ + replaced(text@, from@, to@) =~= replaced(text@, from@, to@));
    loop
        invariant
            start <= n,
            n == text@.len(),
            m == from@.len(),
            m > 0,
            out@ + replaced(text@.skip(start as int), from@, to@) == replaced(text@, from@, to@),
        decreases n - start,
    {
        let ghost rest = text@.skip(start as int);
        let mut j: usize = start;
        let mut found = false;
        while m <= n - j && !found
            invariant
                start <= j <= n,
                n == text@.len(),
                m == from@.len(),
                m > 0,
                rest == text@.skip(start as int),
                found ==> j + m <= n && text@.subrange(j as int, j + m) == from@,
                find_from(rest, from@, 0) == find_from(rest, from@, j - start),
            decreases n - j, if found { 0nat } else { 1nat },
        {
            assert(rest.subrange(j - start, j - start + m) =~= text@.subrange(j as int, j + m));
            if matches_at(text, from, j) {
                found = true;
            } else {
                j += 1;
            }
        }
        if !found {
            append_from(&mut out, text, start);
            return out;
        }
        proof {
            assert(rest.subrange(j - start, j - start + m) =~= text@.subrange(j as int, j + m));
            assert(find_from(rest, from@, 0) == Some(j - start));
        }
        let ghost o0 = out@;
        let mut q = start;
        while q < j
            invariant
                start <= q <= j,
                j <= n,
                n == text@.len(),
                out@ == o0 + text@.subrange(start as int, q as int),
            decreases j - q,
        {
            push_char(&mut out, text.get_char(q));
            assert(out@ =~= o0 + text@.subrange(start as int, q + 1));
            q += 1;
        }
        out.append(to);
        proof {
            assert(rest.take(j - start) =~= text@.subrange(start as int, j as int));
            assert(rest.skip(j - start + m) =~= text@.skip(j + m));
            assert(out@ =~= o0 + rest.take(j - start) + to@);
        }
        start = j + m;
    }
}

} // verus!
