//! Generating serde-compatible Rust models and TypeScript types from AT Protocol Lexicon
//! documents.
use vstd::prelude::*;
use vstd::string::*;
use crate::json::{JsonValue, json_document, json_size, lemma_entry_smaller, lemma_item_smaller, parse_json};
use crate::text::{
    ascii_alnum, ascii_lower, ascii_lowercase_char, ascii_upper, ascii_uppercase_char, chars_of,
    concat, copy_str, is_ascii_alnum, is_ascii_alpha, is_ascii_digit, is_ascii_lower,
    is_ascii_upper, join, join_strings, push_char, split_char, split_on, str_eq, trim_end,
    trim_end_ws,
};

verus! {

// ----------------------------------------------------------------------------------------------
// Identifier casing
// ----------------------------------------------------------------------------------------------

/// One step of the word scanner: the words so far, the word being read, and whether the last
/// character read was a small letter or a digit.
pub open spec fn words_step(st: (Seq<Seq<char>>, Seq<char>, bool), ch: char) -> (
    Seq<Seq<char>>,
    Seq<char>,
    bool,
) {
    if is_ascii_alnum(ch) {
        let next_lower = is_ascii_lower(ch) || is_ascii_digit(ch);
        if is_ascii_upper(ch) && st.2 && st.1.len() > 0 {
            (st.0.push(st.1), seq![ascii_lower(ch)], next_lower)
        } else {
            (st.0, st.1.push(ascii_lower(ch)), next_lower)
        }
    } else if st.1.len() > 0 {
        (st.0.push(st.1), Seq::empty(), false)
    } else {
        st
    }
}

pub open spec fn words_scan(s: Seq<char>) -> (Seq<Seq<char>>, Seq<char>, bool)
    decreases s.len(),
{
    if s.len() == 0 {
        (Seq::empty(), Seq::empty(), false)
    } else {
        words_step(words_scan(s.drop_last()), s.last())
    }
}

/// The words of an identifier: maximal runs of ASCII letters and digits, split further where a
/// capital follows a small letter or digit, all in small letters.
pub open spec fn words_of(s: Seq<char>) -> Seq<Seq<char>> {
    let st = words_scan(s);
    if st.1.len() > 0 {
        st.0.push(st.1)
    } else {
        st.0
    }
}

/// `w` with its first character capitalised.
pub open spec fn capitalize(w: Seq<char>) -> Seq<char> {
    if w.len() == 0 {
        w
    } else {
        seq![ascii_upper(w[0])] + w.drop_first()
    }
}

pub open spec fn capitalize_all(ws: Seq<Seq<char>>) -> Seq<Seq<char>> {
    ws.map_values(|w: Seq<char>| capitalize(w))
}

/// `PascalCase` of an identifier.
pub open spec fn pascal(s: Seq<char>) -> Seq<char> {
    concat(capitalize_all(words_of(s)))
}

/// `snake_case` of an identifier.
pub open spec fn snake(s: Seq<char>) -> Seq<char> {
    join(words_of(s), seq!['_'])
}

/// The words of an identifier, in small letters (see `words_of`).
pub fn words(value: &str) -> (r: Vec<String>)
    ensures
        r@.map_values(|w: String| w@) == words_of(value@),
{
    let chars = chars_of(value);
    let mut ws: Vec<String> = Vec::new();
    let mut current = String::new();
    let mut previous_lowercase = false;
    let mut i: usize = 0;
    while i < chars.len()
        invariant
            chars@ == value@,
            0 <= i <= chars@.len(),
            (ws@.map_values(|w: String| w@), current@, previous_lowercase) == words_scan(
                chars@.take(i as int),
            ),
        decreases chars@.len() - i,
    {
        let ch = chars[i];
        assert(chars@.take(i + 1).drop_last() =~= chars@.take(i as int));
        let ghost before = ws@.map_values(|w: String| w@);
        if ascii_alnum(ch) {
            if 'A' <= ch && ch <= 'Z' && previous_lowercase && !current.as_str().is_empty() {
                proof {
                    assert(current@.len() > 0) by {
                        if current@.len() == 0 {
                            assert(current@ =~= Seq::<char>::empty());
                        }
                    }
                }
                let finished = current;
                ws.push(finished);
                current = String::new();
                assert(ws@.map_values(|w: String| w@) =~= before.push(finished@));
            } else {
                proof {
                    if 'A' <= ch && ch <= 'Z' && previous_lowercase {
                        assert(current@ =~= Seq::<char>::empty());
                    }
                }
            }
            push_char(&mut current, ascii_lowercase_char(ch));
            previous_lowercase = ('a' <= ch && ch <= 'z') || ('0' <= ch && ch <= '9');
        } else if !current.as_str().is_empty() {
            let finished = current;
            ws.push(finished);
            current = String::new();
            assert(ws@.map_values(|w: String| w@) =~= before.push(finished@));
            previous_lowercase = false;
        } else {
            assert(current@ =~= Seq::<char>::empty());
        }
        i = i + 1;
    }
    assert(chars@.take(chars@.len() as int) =~= chars@);
    let ghost before = ws@.map_values(|w: String| w@);
    if !current.as_str().is_empty() {
        ws.push(current);
        assert(ws@.map_values(|w: String| w@) =~= before.push(current@));
    } else {
        assert(current@ =~= Seq::<char>::empty());
    }
    ws
}

/// The words of `value`, each capitalised, run together.
pub fn pascal_case(value: &str) -> (r: String)
    ensures
        r@ == pascal(value@),
{
    let ws = words(value);
    let ghost views = ws@.map_values(|w: String| w@);
    let mut out = String::new();
    let mut i: usize = 0;
    while i < ws.len()
        invariant
            views == ws@.map_values(|w: String| w@),
            views == words_of(value@),
            0 <= i <= ws@.len(),
            out@ == concat(capitalize_all(views.take(i as int))),
        decreases ws@.len() - i,
    {
        let w = chars_of(ws[i].as_str());
        let ghost prev = out@;
        if w.len() > 0 {
            push_char(&mut out, ascii_uppercase_char(w[0]));
            let mut j: usize = 1;
            while j < w.len()
                invariant
                    1 <= j <= w@.len(),
                    out@ == prev + seq![ascii_upper(w@[0])] + w@.subrange(1, j as int),
                decreases w@.len() - j,
            {
                push_char(&mut out, w[j]);
                assert(w@.subrange(1, j + 1) =~= w@.subrange(1, j as int).push(w@[j as int]));
                j = j + 1;
            }
            assert(w@.subrange(1, w@.len() as int) =~= w@.drop_first());
        }
        assert(capitalize_all(views.take(i + 1)).drop_last() =~= capitalize_all(views.take(i as int)));
        assert(capitalize_all(views.take(i + 1)).last() == capitalize(views[i as int]));
        assert(out@ =~= prev + capitalize(w@));
        i = i + 1;
    }
    assert(views.take(ws@.len() as int) =~= views);
    out
}

/// The words of `value` in lower case, joined by underscores.
pub fn snake_case(value: &str) -> (r: String)
    ensures
        r@ == snake(value@),
{
    let ws = words(value);
    proof {
        reveal_strlit("_");
        assert("_"@ =~= seq!['_']);
    }
    join_strings(&ws, "_")
}

// ----------------------------------------------------------------------------------------------
// Names
// ----------------------------------------------------------------------------------------------

/// The type-name prefix of a Lexicon id: the `PascalCase` of its last segment, or of its last two
/// segments when the last one is `defs`.
pub open spec fn lexicon_prefix_of(id: Seq<char>) -> Seq<char> {
    let segs = split_on(id, '.');
    if segs.last() == "defs"@ && segs.len() >= 2 {
        pascal(segs[segs.len() - 2]) + pascal(segs.last())
    } else {
        pascal(segs.last())
    }
}

/// A type name that does not collide with `String`.
pub open spec fn safe_name(name: Seq<char>) -> Seq<char> {
    if name == "String"@ {
        "StringRecord"@
    } else {
        name
    }
}

/// The Rust field name for a Lexicon property.
pub open spec fn rust_field(name: Seq<char>) -> Seq<char> {
    if name == "type"@ {
        "r#type"@
    } else {
        snake(name)
    }
}

/// The type-name prefix of a lexicon id: its last segment in Pascal case, after the one before
/// it for a `defs` lexicon.
pub fn lexicon_prefix(id: &str) -> (r: String)
    ensures
        r@ == lexicon_prefix_of(id@),
{
    let segments = split_char(id, '.');
    let n = segments.len();
    let last = segments[n - 1].as_str();
    proof {
        assert(segments@.map_values(|p: String| p@).last() == last@);
    }
    if str_eq(last, "defs") && n >= 2 {
        let mut r = pascal_case(segments[n - 2].as_str());
        proof {
            assert(segments@.map_values(|p: String| p@)[n - 2] == segments@[n - 2]@);
        }
        let tail = pascal_case(last);
        r.append(tail.as_str());
        r
    } else {
        pascal_case(last)
    }
}

/// A type name that does not collide with `String`: `name`, with `String` made `StringRecord`.
pub fn safe_type_name(name: &str) -> (r: String)
    ensures
        r@ == safe_name(name@),
{
    if str_eq(name, "String") {
        String::from_str("StringRecord")
    } else {
        copy_str(name)
    }
}

/// The Rust field name of a property: snake case, with `type` made `r#type`.
pub fn rust_field_name(name: &str) -> (r: String)
    ensures
        r@ == rust_field(name@),
{
    if str_eq(name, "type") {
        String::from_str("r#type")
    } else {
        snake_case(name)
    }
}

// ----------------------------------------------------------------------------------------------
// TypeScript names and literals
// ----------------------------------------------------------------------------------------------

/// A character as it stands inside a single-quoted TypeScript string.
pub open spec fn ts_escape_char(c: char) -> Seq<char> {
    if c == '\\' {
        seq!['\\', '\\']
    } else if c == '\'' {
        seq!['\\', '\'']
    } else {
        seq![c]
    }
}

/// `s` with backslashes and single quotes escaped for a single-quoted TypeScript string.
pub open spec fn ts_escape(s: Seq<char>) -> Seq<char>
    decreases s.len(),
{
    if s.len() == 0 {
        Seq::empty()
    } else {
        ts_escape(s.drop_last()) + ts_escape_char(s.last())
    }
}

pub open spec fn is_ts_ident_start(c: char) -> bool {
    c == '_' || c == '$' || is_ascii_alpha(c)
}

pub open spec fn is_ts_ident_char(c: char) -> bool {
    c == '_' || c == '$' || is_ascii_alnum(c)
}

/// Whether `name` is an ASCII TypeScript identifier.
pub open spec fn is_ts_identifier(name: Seq<char>) -> bool {
    &&& name.len() > 0
    &&& is_ts_ident_start(name[0])
    &&& forall|i: int| 1 <= i < name.len() ==> is_ts_ident_char(#[trigger] name[i])
}

/// Whether `name` is a reserved word of TypeScript.
pub open spec fn is_ts_reserved(name: Seq<char>) -> bool {
    name == "break"@ || name == "case"@ || name == "catch"@ || name == "class"@ || name == "const"@
        || name == "continue"@ || name == "debugger"@ || name == "default"@ || name == "delete"@
        || name == "do"@ || name == "else"@ || name == "export"@ || name == "extends"@ || name
        == "finally"@ || name == "for"@ || name == "function"@ || name == "if"@ || name
        == "import"@ || name == "in"@ || name == "instanceof"@ || name == "new"@ || name
        == "return"@ || name == "super"@ || name == "switch"@ || name == "this"@ || name
        == "throw"@ || name == "try"@ || name == "typeof"@ || name == "var"@ || name == "void"@
        || name == "while"@ || name == "with"@ || name == "yield"@
}

/// A property name as it stands in a TypeScript object type: bare where it may, quoted otherwise.
pub open spec fn ts_property(name: Seq<char>) -> Seq<char> {
    if is_ts_identifier(name) && !is_ts_reserved(name) {
        name
    } else {
        "'"@ + ts_escape(name) + "'"@
    }
}

/// `value` escaped for a single-quoted TypeScript string.
pub fn typescript_string_literal(value: &str) -> (r: String)
    ensures
        r@ == ts_escape(value@),
{
    let v = chars_of(value);
    let mut r = String::new();
    let mut i: usize = 0;
    while i < v.len()
        invariant
            v@ == value@,
            0 <= i <= v@.len(),
            r@ == ts_escape(v@.take(i as int)),
        decreases v@.len() - i,
    {
        assert(v@.take(i + 1).drop_last() =~= v@.take(i as int));
        let c = v[i];
        let ghost prev = r@;
        if c == '\\' {
            push_char(&mut r, '\\');
            push_char(&mut r, '\\');
        } else if c == '\'' {
            push_char(&mut r, '\\');
            push_char(&mut r, '\'');
        } else {
            push_char(&mut r, c);
        }
        assert(r@ =~= prev + ts_escape_char(c));
        i = i + 1;
    }
    assert(v@.take(v@.len() as int) =~= v@);
    r
}

/// Whether `name` can stand as a bare TypeScript identifier.
pub fn is_typescript_identifier(name: &str) -> (r: bool)
    ensures
        r == is_ts_identifier(name@),
{
    let v = chars_of(name);
    if v.len() == 0 {
        return false;
    }
    let first = v[0];
    if !(first == '_' || first == '$' || ('a' <= first && first <= 'z') || ('A' <= first && first
        <= 'Z')) {
        return false;
    }
    let mut i: usize = 1;
    while i < v.len()
        invariant
            v@ == name@,
            1 <= i <= v@.len(),
            forall|j: int| 1 <= j < i ==> is_ts_ident_char(#[trigger] v@[j]),
        decreases v@.len() - i,
    {
        let c = v[i];
        if !(c == '_' || c == '$' || ascii_alnum(c)) {
            assert(!is_ts_ident_char(v@[i as int]));
            return false;
        }
        i = i + 1;
    }
    true
}

/// Whether `name` is a reserved word of TypeScript.
pub fn typescript_reserved_word(name: &str) -> (r: bool)
    ensures
        r == is_ts_reserved(name@),
{
    str_eq(name, "break") || str_eq(name, "case") || str_eq(name, "catch") || str_eq(name, "class")
        || str_eq(name, "const") || str_eq(name, "continue") || str_eq(name, "debugger") || str_eq(
        name,
        "default",
    ) || str_eq(name, "delete") || str_eq(name, "do") || str_eq(name, "else") || str_eq(
        name,
        "export",
    ) || str_eq(name, "extends") || str_eq(name, "finally") || str_eq(name, "for") || str_eq(
        name,
        "function",
    ) || str_eq(name, "if") || str_eq(name, "import") || str_eq(name, "in") || str_eq(
        name,
        "instanceof",
    ) || str_eq(name, "new") || str_eq(name, "return") || str_eq(name, "super") || str_eq(
        name,
        "switch",
    ) || str_eq(name, "this") || str_eq(name, "throw") || str_eq(name, "try") || str_eq(
        name,
        "typeof",
    ) || str_eq(name, "var") || str_eq(name, "void") || str_eq(name, "while") || str_eq(
        name,
        "with",
    ) || str_eq(name, "yield")
}

/// A TypeScript property key for `name`: bare where it can be, quoted otherwise.
pub fn typescript_property_name(name: &str) -> (r: String)
    ensures
        r@ == ts_property(name@),
{
    if is_typescript_identifier(name) && !typescript_reserved_word(name) {
        copy_str(name)
    } else {
        let mut r = String::from_str("'");
        let lit = typescript_string_literal(name);
        r.append(lit.as_str());
        r.append("'");
        r
    }
}

// ----------------------------------------------------------------------------------------------
// References between definitions
// ----------------------------------------------------------------------------------------------

/// The reference table as plain values: `(id#def, type name)` in the order inserted.
pub open spec fn pairs_view(v: Seq<(String, String)>) -> Seq<(Seq<char>, Seq<char>)> {
    v.map_values(|p: (String, String)| (p.0@, p.1@))
}

/// The type name last recorded for `key` in `refs`, as a map filled in order would hold it.
pub open spec fn ref_lookup(refs: Seq<(Seq<char>, Seq<char>)>, key: Seq<char>) -> Option<Seq<char>>
    decreases refs.len(),
{
    if refs.len() == 0 {
        None
    } else if refs.last().0 == key {
        Some(refs.last().1)
    } else {
        ref_lookup(refs.drop_last(), key)
    }
}

/// The type a Lexicon reference names: a recorded definition, or a local `#name` of the
/// current Lexicon.
pub open spec fn ref_type_of(
    reference: Seq<char>,
    refs: Seq<(Seq<char>, Seq<char>)>,
    prefix: Seq<char>,
) -> Option<Seq<char>> {
    match ref_lookup(refs, reference) {
        Some(t) => Some(t),
        None => if reference.len() > 0 && reference[0] == '#' {
            let name = reference.drop_first();
            if name == "main"@ {
                Some(safe_name(prefix))
            } else {
                Some(safe_name(prefix + pascal(name)))
            }
        } else {
            None
        },
    }
}

pub open spec fn is_strong_ref(reference: Seq<char>) -> bool {
    reference == "com.atproto.repo.strongRef"@ || reference == "com.atproto.repo.strongRef#main"@
}

/// The TypeScript type a Lexicon reference names; strong references have a type of their own.
pub open spec fn ts_ref_type_of(
    reference: Seq<char>,
    refs: Seq<(Seq<char>, Seq<char>)>,
    prefix: Seq<char>,
) -> Option<Seq<char>> {
    if is_strong_ref(reference) {
        Some("AtprotoStrongRef"@)
    } else {
        ref_type_of(reference, refs, prefix)
    }
}

fn lookup_ref(refs: &Vec<(String, String)>, key: &str) -> (r: Option<String>)
    ensures
        match r {
            Some(t) => ref_lookup(pairs_view(refs@), key@) == Some(t@),
            None => ref_lookup(pairs_view(refs@), key@) is None,
        },
{
    let ghost view = pairs_view(refs@);
    let mut n: usize = refs.len();
    assert(view.take(n as int) =~= view);
    while n > 0
        invariant
            view == pairs_view(refs@),
            0 <= n <= refs@.len(),
            ref_lookup(view, key@) == ref_lookup(view.take(n as int), key@),
        decreases n,
    {
        assert(view.take(n as int).drop_last() =~= view.take(n - 1));
        assert(view.take(n as int).last() == view[n - 1]);
        if str_eq(refs[n - 1].0.as_str(), key) {
            return Some(copy_str(refs[n - 1].1.as_str()));
        }
        n = n - 1;
    }
    None
}

/// The Rust type a lexicon reference names, where it names a known one.
pub fn ref_type(reference: &str, ref_types: &Vec<(String, String)>, lexicon_prefix: &str) -> (r:
    Option<String>)
    ensures
        match r {
            Some(t) => ref_type_of(reference@, pairs_view(ref_types@), lexicon_prefix@) == Some(t@),
            None => ref_type_of(reference@, pairs_view(ref_types@), lexicon_prefix@) is None,
        },
{
    if let Some(t) = lookup_ref(ref_types, reference) {
        return Some(t);
    }
    let v = chars_of(reference);
    if v.len() > 0 && v[0] == '#' {
        let mut name_chars: Vec<char> = Vec::new();
        let mut i: usize = 1;
        while i < v.len()
            invariant
                v@ == reference@,
                1 <= i <= v@.len(),
                name_chars@ == v@.subrange(1, i as int),
            decreases v@.len() - i,
        {
            name_chars.push(v[i]);
            assert(v@.subrange(1, i + 1) =~= v@.subrange(1, i as int).push(v@[i as int]));
            i = i + 1;
        }
        assert(name_chars@ =~= reference@.drop_first());
        let name = crate::text::string_from_chars(name_chars.as_slice());
        if str_eq(name.as_str(), "main") {
            Some(safe_type_name(lexicon_prefix))
        } else {
            let mut full = copy_str(lexicon_prefix);
            let p = pascal_case(name.as_str());
            full.append(p.as_str());
            Some(safe_type_name(full.as_str()))
        }
    } else {
        None
    }
}

/// The TypeScript type a lexicon reference names, where it names a known one.
pub fn typescript_ref_type(reference: &str, ref_types: &Vec<(String, String)>, lexicon_prefix: &str) -> (r:
    Option<String>)
    ensures
        match r {
            Some(t) => ts_ref_type_of(reference@, pairs_view(ref_types@), lexicon_prefix@) == Some(t@),
            None => ts_ref_type_of(reference@, pairs_view(ref_types@), lexicon_prefix@) is None,
        },
{
    if str_eq(reference, "com.atproto.repo.strongRef") || str_eq(reference, "com.atproto.repo.strongRef#main") {
        return Some(String::from_str("AtprotoStrongRef"));
    }
    ref_type(reference, ref_types, lexicon_prefix)
}

// ----------------------------------------------------------------------------------------------
// Field types
// ----------------------------------------------------------------------------------------------

/// The strings among `items`, in order.
pub open spec fn string_items(items: Seq<JsonValue>) -> Seq<Seq<char>>
    decreases items.len(),
{
    if items.len() == 0 {
        Seq::empty()
    } else {
        let init = string_items(items.drop_last());
        match items.last() {
            JsonValue::Str(s) => init.push(s@),
            _ => init,
        }
    }
}

/// The strings of the array stored under `key`; empty when there is no such array.
pub open spec fn string_array_member(v: JsonValue, key: Seq<char>) -> Seq<Seq<char>> {
    match v.spec_get(key) {
        Some(m) => match m.spec_as_array() {
            Some(items) => string_items(items),
            None => Seq::empty(),
        },
        None => Seq::empty(),
    }
}

/// The Rust type of a Lexicon field schema.
pub open spec fn rust_type_of(
    schema: JsonValue,
    refs: Seq<(Seq<char>, Seq<char>)>,
    prefix: Seq<char>,
) -> Seq<char>
    decreases json_size(schema),
{
    match schema.spec_get_str("type"@) {
        Some(t) => if t == "string"@ {
            "std::string::String"@
        } else if t == "integer"@ {
            "i64"@
        } else if t == "boolean"@ {
            "bool"@
        } else if t == "array"@ {
            let item_type = match schema.spec_get("items"@) {
                Some(items) => {
                    proof {
                        schema.lemma_get_smaller("items"@);
                    }
                    rust_type_of(items, refs, prefix)
                },
                None => "serde_json::Value"@,
            };
            "Vec<"@ + item_type + ">"@
        } else if t == "ref"@ {
            match schema.spec_get_str("ref"@) {
                Some(r) => match ref_type_of(r, refs, prefix) {
                    Some(x) => x,
                    None => "serde_json::Value"@,
                },
                None => "serde_json::Value"@,
            }
        } else {
            "serde_json::Value"@
        },
        None => "serde_json::Value"@,
    }
}

/// The quoted TypeScript literal types of `values`.
pub open spec fn quoted_literals(values: Seq<Seq<char>>) -> Seq<Seq<char>> {
    values.map_values(|v: Seq<char>| "'"@ + ts_escape(v) + "'"@)
}

/// The TypeScript types of the references among `names` that name a type, in order.
pub open spec fn ts_ref_types(
    names: Seq<Seq<char>>,
    refs: Seq<(Seq<char>, Seq<char>)>,
    prefix: Seq<char>,
) -> Seq<Seq<char>>
    decreases names.len(),
{
    if names.len() == 0 {
        Seq::empty()
    } else {
        let init = ts_ref_types(names.drop_last(), refs, prefix);
        match ts_ref_type_of(names.last(), refs, prefix) {
            Some(t) => init.push(t),
            None => init,
        }
    }
}

/// The literal types listed under `knownValues`, when that member is an array.
pub open spec fn known_value_types(schema: JsonValue) -> Option<Seq<Seq<char>>> {
    match schema.spec_get("knownValues"@) {
        Some(m) => match m.spec_as_array() {
            Some(items) => Some(quoted_literals(string_items(items))),
            None => None,
        },
        None => None,
    }
}

/// The TypeScript type of a Lexicon field schema.
pub open spec fn ts_type_of(
    schema: JsonValue,
    refs: Seq<(Seq<char>, Seq<char>)>,
    prefix: Seq<char>,
) -> Seq<char>
    decreases json_size(schema),
{
    if known_value_types(schema) is Some && known_value_types(schema)->0.len() > 0 {
        join(known_value_types(schema)->0, " | "@)
    } else {
        match schema.spec_get_str("type"@) {
            Some(t) => if t == "string"@ {
                "string"@
            } else if t == "integer"@ {
                "number"@
            } else if t == "boolean"@ {
                "boolean"@
            } else if t == "array"@ {
                let item_type = match schema.spec_get("items"@) {
                    Some(items) => {
                        proof {
                            schema.lemma_get_smaller("items"@);
                        }
                        ts_type_of(items, refs, prefix)
                    },
                    None => "unknown"@,
                };
                item_type + "[]"@
            } else if t == "ref"@ {
                match schema.spec_get_str("ref"@) {
                    Some(r) => match ts_ref_type_of(r, refs, prefix) {
                        Some(x) => x,
                        None => "unknown"@,
                    },
                    None => "unknown"@,
                }
            } else if t == "union"@ {
                match schema.spec_get("refs"@) {
                    Some(m) => match m.spec_as_array() {
                        Some(items) => {
                            let types = ts_ref_types(string_items(items), refs, prefix);
                            if types.len() > 0 {
                                join(types, " | "@)
                            } else {
                                "unknown"@
                            }
                        },
                        None => "unknown"@,
                    },
                    None => "unknown"@,
                }
            } else if t == "object"@ {
                "Record<string, unknown>"@
            } else {
                "unknown"@
            },
            None => "unknown"@,
        }
    }
}

proof fn lemma_type_name_literals()
    ensures
        "string"@.len() == 6,
        "integer"@.len() == 7,
        "boolean"@.len() == 7,
        "array"@.len() == 5,
        "integer"@[0] == 'i',
        "boolean"@[0] == 'b',
        "[]"@ == seq!['[', ']'],
{
    reveal_strlit("string");
    reveal_strlit("integer");
    reveal_strlit("boolean");
    reveal_strlit("array");
    reveal_strlit("[]");
}

/// The Rust type of a lexicon schema, by its `type`: a string is `std::string::String`, an
/// integer `i64`, a boolean `bool`, and an array `Vec<` the type of its items `>`
/// (`Vec<serde_json::Value>` without items).
pub proof fn lemma_rust_types(schema: JsonValue, refs: Seq<(Seq<char>, Seq<char>)>, prefix: Seq<char>)
    ensures
        schema.spec_get_str("type"@) == Some("string"@) ==> rust_type_of(schema, refs, prefix)
            == "std::string::String"@,
        schema.spec_get_str("type"@) == Some("integer"@) ==> rust_type_of(schema, refs, prefix) == "i64"@,
        schema.spec_get_str("type"@) == Some("boolean"@) ==> rust_type_of(schema, refs, prefix) == "bool"@,
        schema.spec_get_str("type"@) == Some("array"@) ==> match schema.spec_get("items"@) {
            Some(items) => rust_type_of(schema, refs, prefix) == "Vec<"@ + rust_type_of(items, refs, prefix) + ">"@,
            None => rust_type_of(schema, refs, prefix) == "Vec<serde_json::Value>"@,
        },
{
    lemma_type_name_literals();
    reveal_strlit("Vec<serde_json::Value>");
    reveal_strlit("Vec<");
    reveal_strlit("serde_json::Value");
    reveal_strlit(">");
    assert("Vec<"@ + "serde_json::Value"@ + ">"@ =~= "Vec<serde_json::Value>"@);
}

/// The TypeScript type of a lexicon schema without `knownValues`, by its `type`: a string is
/// `string`, an integer `number`, a boolean `boolean`, an object `Record<string, unknown>`,
/// and an array the type of its items
/// followed by `[]` (`unknown[]` without items), so an array type always ends in `[]`.
pub proof fn lemma_typescript_types(schema: JsonValue, refs: Seq<(Seq<char>, Seq<char>)>, prefix: Seq<char>)
    requires
        schema.spec_get("knownValues"@) is None,
    ensures
        schema.spec_get_str("type"@) == Some("string"@) ==> ts_type_of(schema, refs, prefix) == "string"@,
        schema.spec_get_str("type"@) == Some("integer"@) ==> ts_type_of(schema, refs, prefix) == "number"@,
        schema.spec_get_str("type"@) == Some("boolean"@) ==> ts_type_of(schema, refs, prefix) == "boolean"@,
        schema.spec_get_str("type"@) == Some("object"@) ==> ts_type_of(schema, refs, prefix)
            == "Record<string, unknown>"@,
        schema.spec_get_str("type"@) == Some("array"@) ==> match schema.spec_get("items"@) {
            Some(items) => ts_type_of(schema, refs, prefix) == ts_type_of(items, refs, prefix) + "[]"@,
            None => ts_type_of(schema, refs, prefix) == "unknown[]"@,
        },
        schema.spec_get_str("type"@) == Some("array"@) ==> ({
            let t = ts_type_of(schema, refs, prefix);
            t.len() >= 2 && t[t.len() - 2] == '[' && t[t.len() - 1] == ']'
        }),
{
    lemma_type_name_literals();
    reveal_strlit("object");
    reveal_strlit("string");
    reveal_strlit("ref");
    reveal_strlit("union");
    reveal_strlit("array");
    assert("object"@ != "string"@) by {
        assert("object"@[0] != "string"@[0]);
    }
    assert("object"@ != "union"@) by {
        assert("object"@[0] != "union"@[0]);
    }
    assert("object"@ != "array"@) by {
        assert("object"@[0] != "array"@[0]);
    }
    assert("object"@ != "ref"@) by {
        assert("object"@[0] != "ref"@[0]);
    }
    reveal_strlit("unknown[]");
    reveal_strlit("unknown");
    assert("unknown"@ + "[]"@ =~= "unknown[]"@);
}

/// The string items of a JSON array, in order, others skipped.
pub fn collect_string_items(items: &Vec<JsonValue>) -> (r: Vec<String>)
    ensures
        r@.map_values(|s: String| s@) == string_items(items@),
{
    let mut r: Vec<String> = Vec::new();
    let mut i: usize = 0;
    while i < items.len()
        invariant
            0 <= i <= items@.len(),
            r@.map_values(|s: String| s@) == string_items(items@.take(i as int)),
        decreases items@.len() - i,
    {
        assert(items@.take(i + 1).drop_last() =~= items@.take(i as int));
        let ghost before = r@.map_values(|s: String| s@);
        if let Some(s) = items[i].as_str() {
            r.push(copy_str(s));
            assert(r@.map_values(|s: String| s@) =~= before.push(s@));
        }
        i = i + 1;
    }
    assert(items@.take(items@.len() as int) =~= items@);
    r
}

/// The Rust type of a lexicon schema.
pub fn rust_type(schema: &JsonValue, ref_types: &Vec<(String, String)>, lexicon_prefix: &str) -> (r:
    String)
    ensures
        r@ == rust_type_of(*schema, pairs_view(ref_types@), lexicon_prefix@),
    decreases json_size(*schema),
{
    match schema.get_str("type") {
        Some(t) => {
            if str_eq(t, "string") {
                String::from_str("std::string::String")
            } else if str_eq(t, "integer") {
                String::from_str("i64")
            } else if str_eq(t, "boolean") {
                String::from_str("bool")
            } else if str_eq(t, "array") {
                let item_type = match schema.get("items") {
                    Some(items) => {
                        proof {
                            schema.lemma_get_smaller("items"@);
                        }
                        rust_type(items, ref_types, lexicon_prefix)
                    },
                    None => String::from_str("serde_json::Value"),
                };
                let mut r = String::from_str("Vec<");
                r.append(item_type.as_str());
                r.append(">");
                r
            } else if str_eq(t, "ref") {
                match schema.get_str("ref") {
                    Some(reference) => match ref_type(reference, ref_types, lexicon_prefix) {
                        Some(x) => x,
                        None => String::from_str("serde_json::Value"),
                    },
                    None => String::from_str("serde_json::Value"),
                }
            } else {
                String::from_str("serde_json::Value")
            }
        },
        None => String::from_str("serde_json::Value"),
    }
}

/// The TypeScript type of a lexicon schema.
pub fn typescript_type(schema: &JsonValue, ref_types: &Vec<(String, String)>, lexicon_prefix: &str) -> (r:
    String)
    ensures
        r@ == ts_type_of(*schema, pairs_view(ref_types@), lexicon_prefix@),
    decreases json_size(*schema),
{
    if let Some(known) = schema.get("knownValues") {
        if let Some(items) = known.as_array() {
            let values = collect_string_items(items);
            let mut quoted: Vec<String> = Vec::new();
            let mut i: usize = 0;
            while i < values.len()
                invariant
                    0 <= i <= values@.len(),
                    quoted@.map_values(|s: String| s@) == quoted_literals(
                        values@.map_values(|s: String| s@).take(i as int),
                    ),
                decreases values@.len() - i,
            {
                let mut q = String::from_str("'");
                let lit = typescript_string_literal(values[i].as_str());
                q.append(lit.as_str());
                q.append("'");
                let ghost before = quoted@.map_values(|s: String| s@);
                quoted.push(q);
                let ghost vals = values@.map_values(|s: String| s@);
                assert(quoted@.map_values(|s: String| s@) =~= before.push(q@));
                assert(vals[i as int] == values@[i as int]@);
                assert(quoted_literals(vals.take(i + 1)) =~= quoted_literals(vals.take(i as int)).push(
                    "'"@ + ts_escape(vals[i as int]) + "'"@,
                ));
                i = i + 1;
            }
            assert(values@.map_values(|s: String| s@).take(values@.len() as int) =~= values@.map_values(
                |s: String| s@,
            ));
            if quoted.len() > 0 {
                return join_strings(&quoted, " | ");
            }
        }
    }
    match schema.get_str("type") {
        Some(t) => {
            if str_eq(t, "string") {
                String::from_str("string")
            } else if str_eq(t, "integer") {
                String::from_str("number")
            } else if str_eq(t, "boolean") {
                String::from_str("boolean")
            } else if str_eq(t, "array") {
                let mut item_type = match schema.get("items") {
                    Some(items) => {
                        proof {
                            schema.lemma_get_smaller("items"@);
                        }
                        typescript_type(items, ref_types, lexicon_prefix)
                    },
                    None => String::from_str("unknown"),
                };
                item_type.append("[]");
                item_type
            } else if str_eq(t, "ref") {
                match schema.get_str("ref") {
                    Some(reference) => match typescript_ref_type(reference, ref_types, lexicon_prefix) {
                        Some(x) => x,
                        None => String::from_str("unknown"),
                    },
                    None => String::from_str("unknown"),
                }
            } else if str_eq(t, "union") {
                match schema.get("refs") {
                    Some(m) => match m.as_array() {
                        Some(items) => {
                            let names = collect_string_items(items);
                            let mut types: Vec<String> = Vec::new();
                            let mut i: usize = 0;
                            while i < names.len()
                                invariant
                                    0 <= i <= names@.len(),
                                    types@.map_values(|s: String| s@) == ts_ref_types(
                                        names@.map_values(|s: String| s@).take(i as int),
                                        pairs_view(ref_types@),
                                        lexicon_prefix@,
                                    ),
                                decreases names@.len() - i,
                            {
                                assert(names@.map_values(|s: String| s@).take(i + 1).drop_last()
                                    =~= names@.map_values(|s: String| s@).take(i as int));
                                let ghost before = types@.map_values(|s: String| s@);
                                if let Some(t) = typescript_ref_type(
                                    names[i].as_str(),
                                    ref_types,
                                    lexicon_prefix,
                                ) {
                                    types.push(t);
                                    assert(types@.map_values(|s: String| s@) =~= before.push(t@));
                                }
                                i = i + 1;
                            }
                            assert(names@.map_values(|s: String| s@).take(names@.len() as int)
                                =~= names@.map_values(|s: String| s@));
                            if types.len() > 0 {
                                join_strings(&types, " | ")
                            } else {
                                String::from_str("unknown")
                            }
                        },
                        None => String::from_str("unknown"),
                    },
                    None => String::from_str("unknown"),
                }
            } else if str_eq(t, "object") {
                String::from_str("Record<string, unknown>")
            } else {
                String::from_str("unknown")
            }
        },
        None => String::from_str("unknown"),
    }
}

// ----------------------------------------------------------------------------------------------
// Emitting one type
// ----------------------------------------------------------------------------------------------

/// The language models are generated in.
#[derive(Debug, Clone, Copy, PartialEq, Eq)]
pub enum CodegenLanguage {
    Rust,
    TypeScript,
}

/// Where model generation stops.
#[derive(Debug)]
pub enum CodegenError {
    ReadDir { path: String, message: String },
    ReadFile { path: String, message: String },
    Json { path: String, message: String },
    MissingField { path: String, field: String },
    CreateDir { path: String, message: String },
    WriteFile { path: String, message: String },
}

/// The message of a generation error, as the command line shows it.
pub open spec fn codegen_error_message(e: CodegenError) -> Seq<char> {
    match e {
        CodegenError::ReadDir { path, message } => "failed to read lexicon directory at "@ + path@ + ": "@
            + message@,
        CodegenError::ReadFile { path, message } => "failed to read lexicon at "@ + path@ + ": "@ + message@,
        CodegenError::Json { path, message } => "failed to parse lexicon JSON at "@ + path@ + ": "@ + message@,
        CodegenError::MissingField { path, field } => "lexicon at "@ + path@ + " is missing "@ + field@,
        CodegenError::CreateDir { path, message } => "failed to create generated source directory at "@ + path@
            + ": "@ + message@,
        CodegenError::WriteFile { path, message } => "failed to write generated source at "@ + path@ + ": "@
            + message@,
    }
}

/// `prefix`, `path`, `middle` and `rest` run together.
fn four_parts(prefix: &str, path: &str, middle: &str, rest: &str) -> (r: String)
    ensures
        r@ == prefix@ + path@ + middle@ + rest@,
{
    let mut r = copy_str(prefix);
    r.append(path);
    r.append(middle);
    r.append(rest);
    r
}

impl CodegenError {
    /// The error's message, as the command line shows it.
    pub fn message(&self) -> (r: String)
        ensures
            r@ == codegen_error_message(*self),
    {
        match self {
            CodegenError::ReadDir { path, message } => four_parts(
                "failed to read lexicon directory at ",
                path.as_str(),
                ": ",
                message.as_str(),
            ),
            CodegenError::ReadFile { path, message } => four_parts(
                "failed to read lexicon at ",
                path.as_str(),
                ": ",
                message.as_str(),
            ),
            CodegenError::Json { path, message } => four_parts(
                "failed to parse lexicon JSON at ",
                path.as_str(),
                ": ",
                message.as_str(),
            ),
            CodegenError::MissingField { path, field } => four_parts(
                "lexicon at ",
                path.as_str(),
                " is missing ",
                field.as_str(),
            ),
            CodegenError::CreateDir { path, message } => four_parts(
                "failed to create generated source directory at ",
                path.as_str(),
                ": ",
                message.as_str(),
            ),
            CodegenError::WriteFile { path, message } => four_parts(
                "failed to write generated source at ",
                path.as_str(),
                ": ",
                message.as_str(),
            ),
        }
    }
}

/// A generation report: the file written and the type names generated, in order.
#[derive(Debug, Clone)]
pub struct CodegenReport {
    pub output: String,
    pub structs: Vec<String>,
}

/// The generated source text and the type names it defines, in order.
#[derive(Debug, Clone)]
pub struct GeneratedModels {
    pub source: String,
    pub structs: Vec<String>,
}

pub open spec fn strings_view(v: Seq<String>) -> Seq<Seq<char>> {
    v.map_values(|s: String| s@)
}

pub open spec fn opt_str_view(o: Option<&str>) -> Option<Seq<char>> {
    match o {
        Some(s) => Some(s@),
        None => None,
    }
}

/// The members of the `properties` object of a schema; none when it has no such object.
pub open spec fn properties_of(object: JsonValue) -> Seq<(String, JsonValue)> {
    match object.spec_get("properties"@) {
        Some(m) => match m.spec_as_object() {
            Some(entries) => entries,
            None => Seq::empty(),
        },
        None => Seq::empty(),
    }
}

pub open spec fn rust_field_text(
    name: Seq<char>,
    schema: JsonValue,
    required: Seq<Seq<char>>,
    refs: Seq<(Seq<char>, Seq<char>)>,
    prefix: Seq<char>,
) -> Seq<char> {
    let field_name = rust_field(name);
    let field_type = rust_type_of(schema, refs, prefix);
    let is_required = required.contains(name);
    (if !is_required {
        "    #[serde(skip_serializing_if = \"Option::is_none\")]\n"@
    } else {
        Seq::empty()
    }) + (if field_name != name {
        "    #[serde(rename = \""@ + name + "\")]\n"@
    } else {
        Seq::empty()
    }) + "    pub "@ + field_name + ": "@ + (if is_required {
        field_type
    } else {
        "Option<"@ + field_type + ">"@
    }) + ",\n"@
}

pub open spec fn ts_field_text(
    name: Seq<char>,
    schema: JsonValue,
    required: Seq<Seq<char>>,
    refs: Seq<(Seq<char>, Seq<char>)>,
    prefix: Seq<char>,
) -> Seq<char> {
    "  "@ + ts_property(name) + (if required.contains(name) {
        Seq::empty()
    } else {
        "?"@
    }) + ": "@ + ts_type_of(schema, refs, prefix) + ";\n"@
}

pub open spec fn field_text(
    lang: CodegenLanguage,
    name: Seq<char>,
    schema: JsonValue,
    required: Seq<Seq<char>>,
    refs: Seq<(Seq<char>, Seq<char>)>,
    prefix: Seq<char>,
) -> Seq<char> {
    match lang {
        CodegenLanguage::Rust => rust_field_text(name, schema, required, refs, prefix),
        CodegenLanguage::TypeScript => ts_field_text(name, schema, required, refs, prefix),
    }
}

/// The fields of a type, one per property, in the order of `props`.
pub open spec fn fields_text(
    lang: CodegenLanguage,
    props: Seq<(String, JsonValue)>,
    required: Seq<Seq<char>>,
    refs: Seq<(Seq<char>, Seq<char>)>,
    prefix: Seq<char>,
) -> Seq<char>
    decreases props.len(),
{
    if props.len() == 0 {
        Seq::empty()
    } else {
        fields_text(lang, props.drop_last(), required, refs, prefix) + field_text(
            lang,
            props.last().0@,
            props.last().1,
            required,
            refs,
            prefix,
        )
    }
}

pub open spec fn rust_default_fn(struct_name: Seq<char>) -> Seq<char> {
    "default_"@ + snake(struct_name) + "_type"@
}

/// A serde struct for an object schema; records carry a `$type` field with a default.
pub open spec fn rust_struct_text(
    refs: Seq<(Seq<char>, Seq<char>)>,
    prefix: Seq<char>,
    name: Seq<char>,
    record_type: Option<Seq<char>>,
    object: JsonValue,
) -> Seq<char> {
    "#[derive(Debug, Clone, PartialEq, Serialize, Deserialize)]\n"@
        + "#[serde(rename_all = \"camelCase\")]\n"@ + "pub struct "@ + name + " {\n"@ + (
    if record_type is Some {
        "    #[serde(rename = \"$type\", default = \""@ + rust_default_fn(name) + "\")]\n"@
            + "    pub r#type: std::string::String,\n"@
    } else {
        Seq::empty()
    }) + fields_text(
        CodegenLanguage::Rust,
        properties_of(object),
        string_array_member(object, "required"@),
        refs,
        prefix,
    ) + "}\n\n"@ + (match record_type {
        Some(rt) => "fn "@ + rust_default_fn(name) + "() -> std::string::String {\n    \""@ + rt
            + "\".to_string()\n}\n\n"@,
        None => Seq::empty(),
    })
}

/// A TypeScript object type for an object schema; records carry an optional `$type`.
pub open spec fn ts_type_text(
    refs: Seq<(Seq<char>, Seq<char>)>,
    prefix: Seq<char>,
    name: Seq<char>,
    record_type: Option<Seq<char>>,
    object: JsonValue,
) -> Seq<char> {
    "export type "@ + name + " = {\n"@ + (match record_type {
        Some(rt) => "  '$type'?: '"@ + ts_escape(rt) + "';\n"@,
        None => Seq::empty(),
    }) + fields_text(
        CodegenLanguage::TypeScript,
        properties_of(object),
        string_array_member(object, "required"@),
        refs,
        prefix,
    ) + "};\n\n"@
}

pub open spec fn type_text(
    lang: CodegenLanguage,
    refs: Seq<(Seq<char>, Seq<char>)>,
    prefix: Seq<char>,
    name: Seq<char>,
    record_type: Option<Seq<char>>,
    object: JsonValue,
) -> Seq<char> {
    match lang {
        CodegenLanguage::Rust => rust_struct_text(refs, prefix, name, record_type, object),
        CodegenLanguage::TypeScript => ts_type_text(refs, prefix, name, record_type, object),
    }
}

fn contains_string(v: &Vec<String>, s: &str) -> (r: bool)
    ensures
        r == strings_view(v@).contains(s@),
{
    let ghost view = strings_view(v@);
    let mut i: usize = 0;
    while i < v.len()
        invariant
            view == strings_view(v@),
            0 <= i <= v@.len(),
            forall|j: int| 0 <= j < i ==> view[j] != s@,
        decreases v@.len() - i,
    {
        if str_eq(v[i].as_str(), s) {
            assert(view[i as int] == s@);
            return true;
        }
        i = i + 1;
    }
    false
}

fn required_names(object: &JsonValue) -> (r: Vec<String>)
    ensures
        strings_view(r@) == string_array_member(*object, "required"@),
{
    match object.get("required") {
        Some(m) => match m.as_array() {
            Some(items) => collect_string_items(items),
            None => Vec::new(),
        },
        None => Vec::new(),
    }
}

#[verifier::rlimit(100)]
#[verifier::spinoff_prover]
fn emit_field(
    language: CodegenLanguage,
    output: &mut String,
    name: &str,
    schema: &JsonValue,
    required: &Vec<String>,
    ref_types: &Vec<(String, String)>,
    lexicon_prefix: &str,
)
    ensures
        final(output)@ == old(output)@ + field_text(
            language,
            name@,
            *schema,
            strings_view(required@),
            pairs_view(ref_types@),
            lexicon_prefix@,
        ),
{
    let is_required = contains_string(required, name);
    match language {
        CodegenLanguage::Rust => {
            let field_name = rust_field_name(name);
            let field_type = rust_type(schema, ref_types, lexicon_prefix);
            if !is_required {
                output.append("    #[serde(skip_serializing_if = \"Option::is_none\")]\n");
            }
            if !str_eq(field_name.as_str(), name) {
                output.append("    #[serde(rename = \"");
                output.append(name);
                output.append("\")]\n");
            }
            output.append("    pub ");
            output.append(field_name.as_str());
            output.append(": ");
            if is_required {
                output.append(field_type.as_str());
            } else {
                output.append("Option<");
                output.append(field_type.as_str());
                output.append(">");
            }
            output.append(",\n");
        },
        CodegenLanguage::TypeScript => {
            let property = typescript_property_name(name);
            let field_type = typescript_type(schema, ref_types, lexicon_prefix);
            output.append("  ");
            output.append(property.as_str());
            if !is_required {
                output.append("?");
            }
            output.append(": ");
            output.append(field_type.as_str());
            output.append(";\n");
        },
    }
}

fn emit_fields(
    language: CodegenLanguage,
    output: &mut String,
    object: &JsonValue,
    ref_types: &Vec<(String, String)>,
    lexicon_prefix: &str,
)
    ensures
        final(output)@ == old(output)@ + fields_text(
            language,
            properties_of(*object),
            string_array_member(*object, "required"@),
            pairs_view(ref_types@),
            lexicon_prefix@,
        ),
{
    let required = required_names(object);
    let empty: Vec<(String, JsonValue)> = Vec::new();
    let props: &Vec<(String, JsonValue)> = match object.get("properties") {
        Some(m) => match m.as_object() {
            Some(entries) => entries,
            None => &empty,
        },
        None => &empty,
    };
    assert(props@ == properties_of(*object));
    let ghost start = output@;
    let mut i: usize = 0;
    while i < props.len()
        invariant
            0 <= i <= props@.len(),
            output@ == start + fields_text(
                language,
                props@.take(i as int),
                strings_view(required@),
                pairs_view(ref_types@),
                lexicon_prefix@,
            ),
        decreases props@.len() - i,
    {
        assert(props@.take(i + 1).drop_last() =~= props@.take(i as int));
        emit_field(
            language,
            output,
            props[i].0.as_str(),
            &props[i].1,
            &required,
            ref_types,
            lexicon_prefix,
        );
        i = i + 1;
    }
    assert(props@.take(props@.len() as int) =~= props@);
}

#[verifier::rlimit(40)]
fn emit_rust_struct(
    output: &mut String,
    ref_types: &Vec<(String, String)>,
    lexicon_prefix: &str,
    ty_name: &str,
    record_type: Option<&str>,
    object: &JsonValue,
)
    ensures
        final(output)@ == old(output)@ + rust_struct_text(
            pairs_view(ref_types@),
            lexicon_prefix@,
            ty_name@,
            opt_str_view(record_type),
            *object,
        ),
{
    let ghost start = output@;
    let mut head = String::from_str("#[derive(Debug, Clone, PartialEq, Serialize, Deserialize)]\n");
    head.append("#[serde(rename_all = \"camelCase\")]\n");
    head.append("pub struct ");
    head.append(ty_name);
    head.append(" {\n");
    let mut default_fn = String::from_str("default_");
    let snake_name = snake_case(ty_name);
    default_fn.append(snake_name.as_str());
    default_fn.append("_type");
    assert(default_fn@ =~= rust_default_fn(ty_name@));
    let mut type_field = String::new();
    if record_type.is_some() {
        type_field.append("    #[serde(rename = \"$type\", default = \"");
        type_field.append(default_fn.as_str());
        type_field.append("\")]\n");
        type_field.append("    pub r#type: std::string::String,\n");
    }
    output.append(head.as_str());
    output.append(type_field.as_str());
    let ghost mid = output@;
    emit_fields(CodegenLanguage::Rust, output, object, ref_types, lexicon_prefix);
    let ghost fields = output@.subrange(mid.len() as int, output@.len() as int);
    assert(output@ =~= mid + fields);
    let mut tail = String::from_str("}\n\n");
    if let Some(rt) = record_type {
        tail.append("fn ");
        tail.append(default_fn.as_str());
        tail.append("() -> std::string::String {\n    \"");
        tail.append(rt);
        tail.append("\".to_string()\n}\n\n");
    }
    output.append(tail.as_str());
    assert(output@ =~= start + head@ + type_field@ + fields + tail@);
}

fn emit_ts_type(
    output: &mut String,
    ref_types: &Vec<(String, String)>,
    lexicon_prefix: &str,
    ty_name: &str,
    record_type: Option<&str>,
    object: &JsonValue,
)
    ensures
        final(output)@ == old(output)@ + ts_type_text(
            pairs_view(ref_types@),
            lexicon_prefix@,
            ty_name@,
            opt_str_view(record_type),
            *object,
        ),
{
    let ghost start = output@;
    let mut head = String::from_str("export type ");
    head.append(ty_name);
    head.append(" = {\n");
    if let Some(rt) = record_type {
        let lit = typescript_string_literal(rt);
        head.append("  '$type'?: '");
        head.append(lit.as_str());
        head.append("';\n");
    }
    output.append(head.as_str());
    let ghost mid = output@;
    emit_fields(CodegenLanguage::TypeScript, output, object, ref_types, lexicon_prefix);
    let ghost fields = output@.subrange(mid.len() as int, output@.len() as int);
    assert(output@ =~= mid + fields);
    output.append("};\n\n");
    assert(output@ =~= start + head@ + fields + "};\n\n"@);
}

/// Appends the type for `object` to `output` and its name to `structs`.
fn emit_type(
    language: CodegenLanguage,
    output: &mut String,
    structs: &mut Vec<String>,
    ref_types: &Vec<(String, String)>,
    lexicon_prefix: &str,
    ty_name: &str,
    record_type: Option<&str>,
    object: &JsonValue,
)
    ensures
        final(output)@ == old(output)@ + type_text(
            language,
            pairs_view(ref_types@),
            lexicon_prefix@,
            ty_name@,
            opt_str_view(record_type),
            *object,
        ),
        strings_view(final(structs)@) == strings_view(old(structs)@).push(ty_name@),
{
    match language {
        CodegenLanguage::Rust => emit_rust_struct(
            output,
            ref_types,
            lexicon_prefix,
            ty_name,
            record_type,
            object,
        ),
        CodegenLanguage::TypeScript => emit_ts_type(
            output,
            ref_types,
            lexicon_prefix,
            ty_name,
            record_type,
            object,
        ),
    }
    let ghost before = strings_view(structs@);
    structs.push(copy_str(ty_name));
    assert(strings_view(structs@) =~= before.push(ty_name@));
}

// ----------------------------------------------------------------------------------------------
// Lexicon documents
// ----------------------------------------------------------------------------------------------

/// The type name of an object definition: the prefix for `main`, the prefix and the
/// definition's name otherwise.
pub open spec fn object_type_name(prefix: Seq<char>, def_name: Seq<char>) -> Seq<char> {
    if def_name == "main"@ {
        prefix
    } else {
        prefix + pascal(def_name)
    }
}

/// The `id` and `defs` of a Lexicon document, or the name of the first of them it lacks.
pub open spec fn lexicon_parts(lexicon: JsonValue) -> Result<
    (Seq<char>, Seq<(String, JsonValue)>),
    Seq<char>,
> {
    match lexicon.spec_get_str("id"@) {
        None => Err("id"@),
        Some(id) => match lexicon.spec_get("defs"@) {
            Some(d) => match d.spec_as_object() {
                Some(defs) => Ok((id, defs)),
                None => Err("defs"@),
            },
            None => Err("defs"@),
        },
    }
}

pub open spec fn lexicon_type_prefix(id: Seq<char>) -> Seq<char> {
    safe_name(lexicon_prefix_of(id))
}

/// The text and type names one definition contributes, or the member it lacks.
pub open spec fn def_output(
    lang: CodegenLanguage,
    refs: Seq<(Seq<char>, Seq<char>)>,
    prefix: Seq<char>,
    id: Seq<char>,
    def_name: Seq<char>,
    def: JsonValue,
) -> Result<(Seq<char>, Seq<Seq<char>>), Seq<char>> {
    match def.spec_get_str("type"@) {
        None => Ok((Seq::empty(), Seq::empty())),
        Some(kind) => if kind == "record"@ {
            match def.spec_get("record"@) {
                None => Err("record"@),
                Some(record) => Ok(
                    (type_text(lang, refs, prefix, prefix, Some(id), record), seq![prefix]),
                ),
            }
        } else if kind == "object"@ {
            let name = object_type_name(prefix, def_name);
            Ok((type_text(lang, refs, prefix, name, None, def), seq![name]))
        } else if kind == "query"@ || kind == "procedure"@ {
            let params_name = prefix + "Params"@;
            let output_name = prefix + "Output"@;
            let params: (Seq<char>, Seq<Seq<char>>) = match def.spec_get("parameters"@) {
                Some(p) => (type_text(lang, refs, prefix, params_name, None, p), seq![params_name]),
                None => (Seq::empty(), Seq::empty()),
            };
            let out: (Seq<char>, Seq<Seq<char>>) = match def.spec_get("output"@) {
                Some(o) => match o.spec_get("schema"@) {
                    Some(schema) => (
                        type_text(lang, refs, prefix, output_name, None, schema),
                        seq![output_name],
                    ),
                    None => (Seq::empty(), Seq::empty()),
                },
                None => (Seq::empty(), Seq::empty()),
            };
            Ok((params.0 + out.0, params.1 + out.1))
        } else {
            Ok((Seq::empty(), Seq::empty()))
        },
    }
}

/// The text and type names of the definitions `defs`, in order, or the member the first
/// failing one lacks.
pub open spec fn defs_output(
    lang: CodegenLanguage,
    refs: Seq<(Seq<char>, Seq<char>)>,
    prefix: Seq<char>,
    id: Seq<char>,
    defs: Seq<(String, JsonValue)>,
) -> Result<(Seq<char>, Seq<Seq<char>>), Seq<char>>
    decreases defs.len(),
{
    if defs.len() == 0 {
        Ok((Seq::empty(), Seq::empty()))
    } else {
        match defs_output(lang, refs, prefix, id, defs.drop_last()) {
            Err(e) => Err(e),
            Ok(acc) => match def_output(lang, refs, prefix, id, defs.last().0@, defs.last().1) {
                Err(e) => Err(e),
                Ok(cur) => Ok((acc.0 + cur.0, acc.1 + cur.1)),
            },
        }
    }
}

/// The text and type names generated for one Lexicon document, or the member it lacks.
pub open spec fn lexicon_output(
    lang: CodegenLanguage,
    refs: Seq<(Seq<char>, Seq<char>)>,
    lexicon: JsonValue,
) -> Result<(Seq<char>, Seq<Seq<char>>), Seq<char>> {
    match lexicon_parts(lexicon) {
        Err(e) => Err(e),
        Ok(parts) => defs_output(lang, refs, lexicon_type_prefix(parts.0), parts.0, parts.1),
    }
}

pub open spec fn missing_field(e: CodegenError, path: Seq<char>, field: Seq<char>) -> bool {
    e matches CodegenError::MissingField { path: p, field: f } && p@ == path && f@ == field
}

fn missing(path: &str, field: &str) -> (e: CodegenError)
    ensures
        missing_field(e, path@, field@),
{
    CodegenError::MissingField { path: copy_str(path), field: copy_str(field) }
}

fn def_name_is_main(def_name: &str) -> (r: bool)
    ensures
        r == (def_name@ == "main"@),
{
    str_eq(def_name, "main")
}

fn object_name(prefix: &str, def_name: &str) -> (r: String)
    ensures
        r@ == object_type_name(prefix@, def_name@),
{
    if def_name_is_main(def_name) {
        copy_str(prefix)
    } else {
        let mut r = copy_str(prefix);
        let p = pascal_case(def_name);
        r.append(p.as_str());
        r
    }
}

#[verifier::rlimit(100)]
#[verifier::spinoff_prover]
fn emit_def(
    language: CodegenLanguage,
    output: &mut String,
    structs: &mut Vec<String>,
    ref_types: &Vec<(String, String)>,
    prefix: &str,
    id: &str,
    path: &str,
    def_name: &str,
    def: &JsonValue,
) -> (r: Result<(), CodegenError>)
    ensures
        match def_output(language, pairs_view(ref_types@), prefix@, id@, def_name@, *def) {
            Ok(out) => r is Ok && final(output)@ == old(output)@ + out.0 && strings_view(
                final(structs)@,
            ) == strings_view(old(structs)@) + out.1,
            Err(f) => r matches Err(e) && missing_field(e, path@, f),
        },
{
    let ghost out0 = output@;
    let ghost st0 = strings_view(structs@);
    let kind = match def.get_str("type") {
        Some(kind) => kind,
        None => {
            assert(out0 =~= out0 + Seq::<char>::empty());
            assert(st0 =~= st0 + Seq::<Seq<char>>::empty());
            return Ok(());
        },
    };
    if str_eq(kind, "record") {
        match def.get("record") {
            None => {
                proof {
                    reveal_strlit("record");
                }
                return Err(missing(path, "record"));
            },
            Some(record) => {
                emit_type(language, output, structs, ref_types, prefix, prefix, Some(id), record);
                assert(strings_view(old(structs)@).push(prefix@) =~= strings_view(old(structs)@) + seq![prefix@]);
            },
        }
    } else if str_eq(kind, "object") {
        let name = object_name(prefix, def_name);
        emit_type(language, output, structs, ref_types, prefix, name.as_str(), None, def);
        assert(strings_view(old(structs)@).push(name@) =~= strings_view(old(structs)@) + seq![name@]);
    } else if str_eq(kind, "query") || str_eq(kind, "procedure") {
        let mut params_name = copy_str(prefix);
        params_name.append("Params");
        let mut output_name = copy_str(prefix);
        output_name.append("Output");
        if let Some(parameters) = def.get("parameters") {
            emit_type(language, output, structs, ref_types, prefix, params_name.as_str(), None, parameters);
        }
        let ghost out1 = output@;
        let ghost st1 = strings_view(structs@);
        let mut emitted_output = false;
        if let Some(o) = def.get("output") {
            if let Some(schema) = o.get("schema") {
                emit_type(language, output, structs, ref_types, prefix, output_name.as_str(), None, schema);
                emitted_output = true;
            }
        }
        proof {
            if !emitted_output {
                assert(output@ =~= out1 + Seq::<char>::empty());
                assert(strings_view(structs@) =~= st1 + Seq::<Seq<char>>::empty());
            } else {
                assert(strings_view(structs@) =~= st1 + seq![output_name@]);
            }
            if def.spec_get("parameters"@) is Some {
                assert(st1 =~= st0 + seq![params_name@]);
            } else {
                assert(out1 =~= out0 + Seq::<char>::empty());
                assert(st1 =~= st0 + Seq::<Seq<char>>::empty());
            }
        }
        let ghost p_part: (Seq<char>, Seq<Seq<char>>) = match def.spec_get("parameters"@) {
            Some(p) => (type_text(language, pairs_view(ref_types@), prefix@, params_name@, None, p), seq![params_name@]),
            None => (Seq::empty(), Seq::empty()),
        };
        assert(out1 == out0 + p_part.0);
        assert(st1 == st0 + p_part.1);
        assert(output@ =~= out0 + p_part.0 + output@.subrange(out1.len() as int, output@.len() as int));
        assert(strings_view(structs@) =~= st0 + p_part.1 + strings_view(structs@).subrange(st1.len() as int, strings_view(structs@).len() as int));
    } else {
        assert(out0 =~= out0 + Seq::<char>::empty());
        assert(st0 =~= st0 + Seq::<Seq<char>>::empty());
    }
    Ok(())
}

/// The id and definitions of a Lexicon document, or the missing member as an error.
fn lexicon_header<'a>(lexicon: &'a JsonValue, path: &str) -> (r: Result<
    (&'a str, &'a Vec<(String, JsonValue)>),
    CodegenError,
>)
    ensures
        match lexicon_parts(*lexicon) {
            Ok(parts) => r matches Ok(h) && h.0@ == parts.0 && h.1@ == parts.1,
            Err(f) => r matches Err(e) && missing_field(e, path@, f),
        },
{
    let id = match lexicon.get_str("id") {
        Some(id) => id,
        None => {
            proof {
                reveal_strlit("id");
            }
            return Err(missing(path, "id"));
        },
    };
    match lexicon.get("defs") {
        Some(d) => match d.as_object() {
            Some(defs) => Ok((id, defs)),
            None => {
                proof {
                    reveal_strlit("defs");
                }
                Err(missing(path, "defs"))
            },
        },
        None => {
            proof {
                reveal_strlit("defs");
            }
            Err(missing(path, "defs"))
        },
    }
}

/// Once emitting the definitions of a lexicon fails, emitting more of them fails the same way.
pub proof fn lemma_defs_output_err(
    lang: CodegenLanguage,
    refs: Seq<(Seq<char>, Seq<char>)>,
    prefix: Seq<char>,
    id: Seq<char>,
    defs: Seq<(String, JsonValue)>,
    k: int,
)
    requires
        0 <= k <= defs.len(),
        defs_output(lang, refs, prefix, id, defs.take(k)) is Err,
    ensures
        defs_output(lang, refs, prefix, id, defs) == defs_output(lang, refs, prefix, id, defs.take(k)),
    decreases defs.len(),
{
    if defs.len() == k {
        assert(defs.take(k) =~= defs);
    } else {
        assert(defs.drop_last().take(k) =~= defs.take(k));
        lemma_defs_output_err(lang, refs, prefix, id, defs.drop_last(), k);
    }
}

/// Once collecting reference types fails, collecting from more lexicons fails the same way.
pub proof fn lemma_collected_refs_err(lexicons: Seq<(String, JsonValue)>, k: int)
    requires
        0 <= k <= lexicons.len(),
        collected_refs(lexicons.take(k)) is Err,
    ensures
        collected_refs(lexicons) == collected_refs(lexicons.take(k)),
    decreases lexicons.len(),
{
    if lexicons.len() == k {
        assert(lexicons.take(k) =~= lexicons);
    } else {
        assert(lexicons.drop_last().take(k) =~= lexicons.take(k));
        lemma_collected_refs_err(lexicons.drop_last(), k);
    }
}

/// Appends the types of one Lexicon document; the `generate_*_lexicon` step of generation.
fn emit_lexicon(
    language: CodegenLanguage,
    lexicon: &JsonValue,
    path: &str,
    ref_types: &Vec<(String, String)>,
    output: &mut String,
    structs: &mut Vec<String>,
) -> (r: Result<(), CodegenError>)
    ensures
        match lexicon_output(language, pairs_view(ref_types@), *lexicon) {
            Ok(out) => r is Ok && final(output)@ == old(output)@ + out.0 && strings_view(
                final(structs)@,
            ) == strings_view(old(structs)@) + out.1,
            Err(f) => r matches Err(e) && missing_field(e, path@, f),
        },
{
    let (id, defs) = match lexicon_header(lexicon, path) {
        Ok(h) => h,
        Err(e) => return Err(e),
    };
    let raw_prefix = lexicon_prefix(id);
    let prefix = safe_type_name(raw_prefix.as_str());
    let ghost out0 = output@;
    let ghost st0 = strings_view(structs@);
    let ghost refs = pairs_view(ref_types@);
    let mut i: usize = 0;
    while i < defs.len()
        invariant
            0 <= i <= defs@.len(),
            refs == pairs_view(ref_types@),
            prefix@ == lexicon_type_prefix(id@),
            lexicon_parts(*lexicon) matches Ok(parts) && parts.0 == id@ && parts.1 == defs@,
            defs_output(language, refs, prefix@, id@, defs@.take(i as int)) matches Ok(acc) && output@
                == out0 + acc.0 && strings_view(structs@) == st0 + acc.1,
        decreases defs@.len() - i,
    {
        assert(defs@.take(i + 1).drop_last() =~= defs@.take(i as int));
        let ghost acc = defs_output(language, refs, prefix@, id@, defs@.take(i as int))->Ok_0;
        match emit_def(
            language,
            output,
            structs,
            ref_types,
            prefix.as_str(),
            id,
            path,
            defs[i].0.as_str(),
            &defs[i].1,
        ) {
            Ok(()) => {},
            Err(e) => {
                proof {
                    assert(defs@.take(i + 1).last() == defs@[i as int]);
                    let f = def_output(language, refs, prefix@, id@, defs@[i as int].0@, defs@[i as int].1)->Err_0;
                    assert(defs_output(language, refs, prefix@, id@, defs@.take(i + 1)) == Err::<
                        (Seq<char>, Seq<Seq<char>>),
                        Seq<char>,
                    >(f));
                    lemma_defs_output_err(language, refs, prefix@, id@, defs@, i + 1);
                }
                return Err(e);
            },
        }
        let ghost cur = def_output(language, refs, prefix@, id@, defs@[i as int].0@, defs@[i as int].1)->Ok_0;
        assert(output@ =~= out0 + (acc.0 + cur.0));
        assert(strings_view(structs@) =~= st0 + (acc.1 + cur.1));
        i = i + 1;
    }
    assert(defs@.take(defs@.len() as int) =~= defs@);
    Ok(())
}

/// The reference-table entries one definition contributes: records and objects, keyed by
/// `id#name`.
pub open spec fn def_refs(id: Seq<char>, prefix: Seq<char>, def_name: Seq<char>, def: JsonValue) -> Seq<
    (Seq<char>, Seq<char>),
> {
    match def.spec_get_str("type"@) {
        Some(kind) => if kind == "record"@ {
            seq![(id + "#"@ + def_name, prefix)]
        } else if kind == "object"@ {
            seq![(id + "#"@ + def_name, object_type_name(prefix, def_name))]
        } else {
            Seq::empty()
        },
        None => Seq::empty(),
    }
}

pub open spec fn defs_refs(id: Seq<char>, prefix: Seq<char>, defs: Seq<(String, JsonValue)>) -> Seq<
    (Seq<char>, Seq<char>),
>
    decreases defs.len(),
{
    if defs.len() == 0 {
        Seq::empty()
    } else {
        defs_refs(id, prefix, defs.drop_last()) + def_refs(id, prefix, defs.last().0@, defs.last().1)
    }
}

/// The reference table of a set of Lexicon documents, in document and definition order, or the
/// path and member of the first document lacking `id` or `defs`.
pub open spec fn collected_refs(lexicons: Seq<(String, JsonValue)>) -> Result<
    Seq<(Seq<char>, Seq<char>)>,
    (Seq<char>, Seq<char>),
>
    decreases lexicons.len(),
{
    if lexicons.len() == 0 {
        Ok(Seq::empty())
    } else {
        match collected_refs(lexicons.drop_last()) {
            Err(e) => Err(e),
            Ok(acc) => match lexicon_parts(lexicons.last().1) {
                Err(f) => Err((lexicons.last().0@, f)),
                Ok(parts) => Ok(
                    acc + defs_refs(parts.0, lexicon_type_prefix(parts.0), parts.1),
                ),
            },
        }
    }
}

/// The type name of every object definition of `lexicons`, keyed by its reference.
pub fn collect_ref_types(lexicons: &Vec<(String, JsonValue)>) -> (r: Result<
    Vec<(String, String)>,
    CodegenError,
>)
    ensures
        match collected_refs(lexicons@) {
            Ok(refs) => r matches Ok(t) && pairs_view(t@) == refs,
            Err(e) => r matches Err(err) && missing_field(err, e.0, e.1),
        },
{
    let mut refs: Vec<(String, String)> = Vec::new();
    let mut i: usize = 0;
    while i < lexicons.len()
        invariant
            0 <= i <= lexicons@.len(),
            collected_refs(lexicons@.take(i as int)) matches Ok(acc) && pairs_view(refs@) == acc,
        decreases lexicons@.len() - i,
    {
        assert(lexicons@.take(i + 1).drop_last() =~= lexicons@.take(i as int));
        let (id, defs) = match lexicon_header(&lexicons[i].1, lexicons[i].0.as_str()) {
            Ok(h) => h,
            Err(e) => {
                proof {
                    lemma_collected_refs_err(lexicons@, i + 1);
                }
                return Err(e);
            },
        };
        let raw_prefix = lexicon_prefix(id);
        let prefix = safe_type_name(raw_prefix.as_str());
        let ghost acc0 = pairs_view(refs@);
        let mut j: usize = 0;
        while j < defs.len()
            invariant
                0 <= j <= defs@.len(),
                pairs_view(refs@) == acc0 + defs_refs(id@, prefix@, defs@.take(j as int)),
            decreases defs@.len() - j,
        {
            assert(defs@.take(j + 1).drop_last() =~= defs@.take(j as int));
            let ghost before = pairs_view(refs@);
            let def_name = defs[j].0.as_str();
            if let Some(kind) = defs[j].1.get_str("type") {
                let is_record = str_eq(kind, "record");
                if is_record || str_eq(kind, "object") {
                    let mut key = copy_str(id);
                    key.append("#");
                    key.append(def_name);
                    let name = if is_record {
                        copy_str(prefix.as_str())
                    } else {
                        object_name(prefix.as_str(), def_name)
                    };
                    refs.push((key, name));
                    assert(pairs_view(refs@) =~= before + seq![(key@, name@)]);
                } else {
                    assert(pairs_view(refs@) =~= before + Seq::<(Seq<char>, Seq<char>)>::empty());
                }
            } else {
                assert(pairs_view(refs@) =~= before + Seq::<(Seq<char>, Seq<char>)>::empty());
            }
            j = j + 1;
        }
        assert(defs@.take(defs@.len() as int) =~= defs@);
        i = i + 1;
    }
    assert(lexicons@.take(lexicons@.len() as int) =~= lexicons@);
    Ok(refs)
}

/// Whether a string anywhere in `v` names `com.atproto.repo.strongRef`.
pub open spec fn contains_strong_ref(v: JsonValue) -> bool
    decreases v, 0nat,
{
    match v {
        JsonValue::Str(s) => is_strong_ref(s@),
        JsonValue::Array(items) => items_contain_strong_ref(items@),
        JsonValue::Object(entries) => entries_contain_strong_ref(entries@),
        _ => false,
    }
}

pub open spec fn items_contain_strong_ref(items: Seq<JsonValue>) -> bool
    decreases items, items.len(),
{
    items.len() > 0 && (contains_strong_ref(items[0]) || items_contain_strong_ref(items.drop_first()))
}

pub open spec fn entries_contain_strong_ref(entries: Seq<(String, JsonValue)>) -> bool
    decreases entries, entries.len(),
{
    entries.len() > 0 && (contains_strong_ref(entries[0].1) || entries_contain_strong_ref(
        entries.drop_first(),
    ))
}

/// Whether any of the documents mentions a strong reference.
pub open spec fn any_strong_ref(lexicons: Seq<(String, JsonValue)>) -> bool
    decreases lexicons.len(),
{
    lexicons.len() > 0 && (contains_strong_ref(lexicons[0].1) || any_strong_ref(lexicons.drop_first()))
}

/// Whether a schema refers to `com.atproto.repo.strongRef` anywhere within it.
pub fn value_contains_strong_ref(value: &JsonValue) -> (r: bool)
    ensures
        r == contains_strong_ref(*value),
    decreases json_size(*value),
{
    match value {
        JsonValue::Str(s) => str_eq(s.as_str(), "com.atproto.repo.strongRef") || str_eq(
            s.as_str(),
            "com.atproto.repo.strongRef#main",
        ),
        JsonValue::Array(items) => {
            let mut i: usize = 0;
            assert(items@.skip(0) =~= items@);
            while i < items.len()
                invariant
                    0 <= i <= items@.len(),
                    *value == JsonValue::Array(*items),
                    contains_strong_ref(*value) == items_contain_strong_ref(items@.skip(i as int)),
                decreases items@.len() - i,
            {
                assert(items@.skip(i as int).drop_first() =~= items@.skip(i + 1));
                assert(items@.skip(i as int)[0] == items@[i as int]);
                proof {
                    lemma_item_smaller(items@, i as int);
                }
                if value_contains_strong_ref(&items[i]) {
                    return true;
                }
                i = i + 1;
            }
            false
        },
        JsonValue::Object(entries) => {
            let mut i: usize = 0;
            assert(entries@.skip(0) =~= entries@);
            while i < entries.len()
                invariant
                    0 <= i <= entries@.len(),
                    *value == JsonValue::Object(*entries),
                    contains_strong_ref(*value) == entries_contain_strong_ref(
                        entries@.skip(i as int),
                    ),
                decreases entries@.len() - i,
            {
                assert(entries@.skip(i as int).drop_first() =~= entries@.skip(i + 1));
                assert(entries@.skip(i as int)[0] == entries@[i as int]);
                proof {
                    lemma_entry_smaller(entries@, i as int);
                }
                if value_contains_strong_ref(&entries[i].1) {
                    return true;
                }
                i = i + 1;
            }
            false
        },
        _ => false,
    }
}

/// Whether any of `lexicons` refers to `com.atproto.repo.strongRef`.
pub fn uses_strong_ref(lexicons: &Vec<(String, JsonValue)>) -> (r: bool)
    ensures
        r == any_strong_ref(lexicons@),
{
    let mut i: usize = 0;
    assert(lexicons@.skip(0) =~= lexicons@);
    while i < lexicons.len()
        invariant
            0 <= i <= lexicons@.len(),
            any_strong_ref(lexicons@) == any_strong_ref(lexicons@.skip(i as int)),
        decreases lexicons@.len() - i,
    {
        assert(lexicons@.skip(i as int).drop_first() =~= lexicons@.skip(i + 1));
        assert(lexicons@.skip(i as int)[0] == lexicons@[i as int]);
        if value_contains_strong_ref(&lexicons[i].1) {
            return true;
        }
        i = i + 1;
    }
    false
}

// ----------------------------------------------------------------------------------------------
// Whole model files
// ----------------------------------------------------------------------------------------------

pub open spec fn rust_header() -> Seq<char> {
    "// This file is generated from AT Protocol Lexicon JSON. Do not edit by hand.\n\nuse serde::{Deserialize, Serialize};\n\n"@
}

pub open spec fn ts_header() -> Seq<char> {
    "// This file is generated from AT Protocol Lexicon JSON. Do not edit by hand.\n\n"@
}

pub open spec fn strong_ref_type() -> Seq<char> {
    "export type AtprotoStrongRef = {\n  uri: string;\n  cid: string;\n};\n\n"@
}

/// The text a model file starts with.
pub open spec fn header_text(lang: CodegenLanguage, lexicons: Seq<(String, JsonValue)>) -> Seq<char> {
    match lang {
        CodegenLanguage::Rust => rust_header(),
        CodegenLanguage::TypeScript => ts_header() + (if any_strong_ref(lexicons) {
            strong_ref_type()
        } else {
            Seq::empty()
        }),
    }
}

/// The text and type names of all documents, in order, or the path and member of the first
/// failing one.
pub open spec fn lexicons_output(
    lang: CodegenLanguage,
    refs: Seq<(Seq<char>, Seq<char>)>,
    lexicons: Seq<(String, JsonValue)>,
) -> Result<(Seq<char>, Seq<Seq<char>>), (Seq<char>, Seq<char>)>
    decreases lexicons.len(),
{
    if lexicons.len() == 0 {
        Ok((Seq::empty(), Seq::empty()))
    } else {
        match lexicons_output(lang, refs, lexicons.drop_last()) {
            Err(e) => Err(e),
            Ok(acc) => match lexicon_output(lang, refs, lexicons.last().1) {
                Err(f) => Err((lexicons.last().0@, f)),
                Ok(cur) => Ok((acc.0 + cur.0, acc.1 + cur.1)),
            },
        }
    }
}

/// The model file for a set of Lexicon documents (given with their paths, in the order they are
/// to appear) and the type names it defines; or the path and member of the first document that
/// lacks one.
pub open spec fn models_output(lang: CodegenLanguage, lexicons: Seq<(String, JsonValue)>) -> Result<
    (Seq<char>, Seq<Seq<char>>),
    (Seq<char>, Seq<char>),
> {
    match collected_refs(lexicons) {
        Err(e) => Err(e),
        Ok(refs) => match lexicons_output(lang, refs, lexicons) {
            Err(e) => Err(e),
            Ok(out) => Ok(
                (trim_end_ws(header_text(lang, lexicons) + out.0) + seq!['\n'], out.1),
            ),
        },
    }
}

/// Once emitting a lexicon fails, emitting more lexicons fails the same way.
pub proof fn lemma_lexicons_output_err(
    lang: CodegenLanguage,
    refs: Seq<(Seq<char>, Seq<char>)>,
    lexicons: Seq<(String, JsonValue)>,
    k: int,
)
    requires
        0 <= k <= lexicons.len(),
        lexicons_output(lang, refs, lexicons.take(k)) is Err,
    ensures
        lexicons_output(lang, refs, lexicons) == lexicons_output(lang, refs, lexicons.take(k)),
    decreases lexicons.len(),
{
    if lexicons.len() == k {
        assert(lexicons.take(k) =~= lexicons);
    } else {
        assert(lexicons.drop_last().take(k) =~= lexicons.take(k));
        lemma_lexicons_output_err(lang, refs, lexicons.drop_last(), k);
    }
}

/// Generates the model file for Lexicon documents, given with their paths in the order the types
/// are to appear.
pub fn generate_models_from_lexicons(
    lexicons: &Vec<(String, JsonValue)>,
    language: CodegenLanguage,
) -> (r: Result<GeneratedModels, CodegenError>)
    ensures
        match models_output(language, lexicons@) {
            Ok(out) => r matches Ok(g) && g.source@ == out.0 && strings_view(g.structs@) == out.1,
            Err(e) => r matches Err(err) && missing_field(err, e.0, e.1),
        },
{
    let ref_types = match collect_ref_types(lexicons) {
        Ok(t) => t,
        Err(e) => return Err(e),
    };
    let ghost refs = pairs_view(ref_types@);
    let mut structs: Vec<String> = Vec::new();
    let mut generated = match language {
        CodegenLanguage::Rust => String::from_str(
            "// This file is generated from AT Protocol Lexicon JSON. Do not edit by hand.\n\nuse serde::{Deserialize, Serialize};\n\n",
        ),
        CodegenLanguage::TypeScript => {
            let mut source = String::from_str(
                "// This file is generated from AT Protocol Lexicon JSON. Do not edit by hand.\n\n",
            );
            if uses_strong_ref(lexicons) {
                source.append("export type AtprotoStrongRef = {\n  uri: string;\n  cid: string;\n};\n\n");
            } else {
                assert(source@ =~= source@ + Seq::<char>::empty());
            }
            source
        },
    };
    let ghost header = generated@;
    assert(header == header_text(language, lexicons@));
    assert(structs@.map_values(|s: String| s@) =~= Seq::<Seq<char>>::empty());
    let mut i: usize = 0;
    while i < lexicons.len()
        invariant
            0 <= i <= lexicons@.len(),
            refs == pairs_view(ref_types@),
            collected_refs(lexicons@) matches Ok(r0) && r0 == refs,
            lexicons_output(language, refs, lexicons@.take(i as int)) matches Ok(acc) && generated@
                == header + acc.0 && strings_view(structs@) == acc.1,
        decreases lexicons@.len() - i,
    {
        assert(lexicons@.take(i + 1).drop_last() =~= lexicons@.take(i as int));
        assert(lexicons@.take(i + 1).last() == lexicons@[i as int]);
        let ghost acc = lexicons_output(language, refs, lexicons@.take(i as int))->Ok_0;
        match emit_lexicon(
            language,
            &lexicons[i].1,
            lexicons[i].0.as_str(),
            &ref_types,
            &mut generated,
            &mut structs,
        ) {
            Ok(()) => {},
            Err(e) => {
                proof {
                    let f = lexicon_output(language, refs, lexicons@[i as int].1)->Err_0;
                    assert(lexicons_output(language, refs, lexicons@.take(i + 1)) == Err::<
                        (Seq<char>, Seq<Seq<char>>),
                        (Seq<char>, Seq<char>),
                    >((lexicons@[i as int].0@, f)));
                    lemma_lexicons_output_err(language, refs, lexicons@, i + 1);
                }
                return Err(e);
            },
        }
        let ghost cur = lexicon_output(language, refs, lexicons@[i as int].1)->Ok_0;
        assert(generated@ =~= header + (acc.0 + cur.0));
        i = i + 1;
    }
    assert(lexicons@.take(lexicons@.len() as int) =~= lexicons@);
    let mut source = trim_end(generated.as_str());
    push_char(&mut source, '\n');
    Ok(GeneratedModels { source, structs })
}

/// The documents read from Lexicon files, in order, or the path of the first one that is not
/// JSON.
pub open spec fn parsed_lexicons(sources: Seq<(String, String)>) -> Result<
    Seq<(String, JsonValue)>,
    Seq<char>,
>
    decreases sources.len(),
{
    if sources.len() == 0 {
        Ok(Seq::empty())
    } else {
        match parsed_lexicons(sources.drop_last()) {
            Err(p) => Err(p),
            Ok(acc) => match json_document(sources.last().1@) {
                None => Err(sources.last().0@),
                Some(v) => Ok(acc.push((sources.last().0, v))),
            },
        }
    }
}

/// Once parsing a lexicon source fails, parsing more sources fails the same way.
pub proof fn lemma_parsed_lexicons_err(sources: Seq<(String, String)>, k: int)
    requires
        0 <= k <= sources.len(),
        parsed_lexicons(sources.take(k)) is Err,
    ensures
        parsed_lexicons(sources) == parsed_lexicons(sources.take(k)),
    decreases sources.len(),
{
    if sources.len() == k {
        assert(sources.take(k) =~= sources);
    } else {
        assert(sources.drop_last().take(k) =~= sources.take(k));
        lemma_parsed_lexicons_err(sources.drop_last(), k);
    }
}

/// What generation from Lexicon files gives: the model file, or a failure for the first file that
/// is not JSON (`None`: its parse message is not stated), or that lacks a member.
pub open spec fn generation_result(lang: CodegenLanguage, sources: Seq<(String, String)>) -> Result<
    (Seq<char>, Seq<Seq<char>>),
    (Seq<char>, Option<Seq<char>>),
> {
    match parsed_lexicons(sources) {
        Err(p) => Err((p, None)),
        Ok(lexicons) => match models_output(lang, lexicons) {
            Ok(out) => Ok(out),
            Err(e) => Err((e.0, Some(e.1))),
        },
    }
}

/// One Lexicon file read as JSON: its path with the document, or the parse error for that path.
pub fn parse_lexicon_source(path: String, contents: &str) -> (r: Result<(String, JsonValue), CodegenError>)
    ensures
        match json_document(contents@) {
            Some(v) => r matches Ok(p) && p.0 == path && p.1 == v,
            None => r matches Err(CodegenError::Json { path: p, .. }) && p@ == path@,
        },
{
    match parse_json(contents) {
        Ok(v) => Ok((path, v)),
        Err(message) => Err(CodegenError::Json { path, message }),
    }
}

/// Generates models from Lexicon files given as `(path, contents)`, in the order the types are to
/// appear.
pub fn generate_models(sources: &Vec<(String, String)>, language: CodegenLanguage) -> (r: Result<
    GeneratedModels,
    CodegenError,
>)
    ensures
        match generation_result(language, sources@) {
            Ok(out) => r matches Ok(g) && g.source@ == out.0 && strings_view(g.structs@) == out.1,
            Err((path, None)) => r matches Err(CodegenError::Json { path: p, .. }) && p@ == path,
            Err((path, Some(field))) => r matches Err(err) && missing_field(err, path, field),
        },
{
    let mut lexicons: Vec<(String, JsonValue)> = Vec::new();
    let mut i: usize = 0;
    while i < sources.len()
        invariant
            0 <= i <= sources@.len(),
            parsed_lexicons(sources@.take(i as int)) == Ok::<Seq<(String, JsonValue)>, Seq<char>>(
                lexicons@,
            ),
        decreases sources@.len() - i,
    {
        assert(sources@.take(i + 1).drop_last() =~= sources@.take(i as int));
        assert(sources@.take(i + 1).last() == sources@[i as int]);
        match parse_json(sources[i].1.as_str()) {
            Ok(v) => {
                lexicons.push((sources[i].0.clone(), v));
            },
            Err(message) => {
                proof {
                    lemma_parsed_lexicons_err(sources@, i + 1);
                }
                return Err(CodegenError::Json { path: sources[i].0.clone(), message });
            },
        }
        i = i + 1;
    }
    assert(sources@.take(sources@.len() as int) =~= sources@);
    generate_models_from_lexicons(&lexicons, language)
}

/// Generates serde-compatible Rust models from Lexicon files given as `(path, contents)`.
pub fn generate_serde_models(sources: &Vec<(String, String)>) -> (r: Result<
    GeneratedModels,
    CodegenError,
>)
    ensures
        match generation_result(CodegenLanguage::Rust, sources@) {
            Ok(out) => r matches Ok(g) && g.source@ == out.0 && strings_view(g.structs@) == out.1,
            Err((path, None)) => r matches Err(CodegenError::Json { path: p, .. }) && p@ == path,
            Err((path, Some(field))) => r matches Err(err) && missing_field(err, path, field),
        },
{
    generate_models(sources, CodegenLanguage::Rust)
}

/// Generates TypeScript types from Lexicon files given as `(path, contents)`.
pub fn generate_typescript_models(sources: &Vec<(String, String)>) -> (r: Result<
    GeneratedModels,
    CodegenError,
>)
    ensures
        match generation_result(CodegenLanguage::TypeScript, sources@) {
            Ok(out) => r matches Ok(g) && g.source@ == out.0 && strings_view(g.structs@) == out.1,
            Err((path, None)) => r matches Err(CodegenError::Json { path: p, .. }) && p@ == path,
            Err((path, Some(field))) => r matches Err(err) && missing_field(err, path, field),
        },
{
    generate_models(sources, CodegenLanguage::TypeScript)
}

} // verus!
