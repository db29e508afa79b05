//! Element properties: the `name=value, name=value` lists written between
//! square brackets after many elements.
use vstd::prelude::*;

use crate::compile::{push_chars, push_str};
use crate::scan::spec_find_char;
use crate::semantics::{spec_added, SemKind, SemToken};
use crate::text::{chars_eq, push_repeat, repeat, spec_trim, spec_trim_bounds, trim};

verus! {

/// A property an element accepts.
pub struct PropertySpec {
    pub name: Vec<char>,
    /// Whether the property must be given when it has no default.
    pub required: bool,
    pub default: Option<Vec<char>>,
}

/// A property with its value.
#[derive(Debug)]
pub struct PropEntry {
    pub name: Vec<char>,
    pub value: Vec<char>,
}

/// Why a property list is refused.
#[derive(Debug)]
pub enum PropError {
    /// An entry without `=` or with an empty value.
    MissingValue(Vec<char>),
    /// An entry whose name is empty.
    EmptyName,
    /// A name the element does not accept.
    Unknown(Vec<char>),
    /// A name given twice.
    Duplicate(Vec<char>),
    /// A required property that was not given.
    Missing(Vec<char>),
}

/// An entry as split from the text, before trimming and validation.
pub struct RawEntry {
    pub name: Seq<char>,
    pub value: Seq<char>,
    pub has_eq: bool,
}

pub struct SplitState {
    pub done: Seq<RawEntry>,
    pub in_name: bool,
    pub name: Seq<char>,
    pub value: Seq<char>,
    pub escaped: nat,
}

pub open spec fn split_init() -> SplitState {
    SplitState { done: Seq::empty(), in_name: true, name: Seq::empty(), value: Seq::empty(), escaped: 0 }
}

/// One character of the entry splitter: `=` ends the name, an unescaped `,`
/// ends the value; a backslash before `,` makes it part of the value.
pub open spec fn split_step(st: SplitState, c: char) -> SplitState {
    if c == '\\' {
        SplitState { escaped: st.escaped + 1, ..st }
    } else if c == '=' && st.in_name {
        SplitState { in_name: false, name: st.name + repeat('\\', st.escaped), escaped: 0, ..st }
    } else if c == ',' && !st.in_name && st.escaped % 2 == 0 {
        SplitState {
            done: st.done.push(
                RawEntry { name: st.name, value: st.value + repeat('\\', st.escaped / 2), has_eq: true },
            ),
            in_name: true,
            name: Seq::empty(),
            value: Seq::empty(),
            escaped: 0,
        }
    } else if c == ',' && !st.in_name {
        SplitState {
            value: st.value + repeat('\\', ((st.escaped - 1) as nat) / 2) + seq![','],
            escaped: 0,
            ..st
        }
    } else if st.in_name {
        SplitState { name: st.name + repeat('\\', st.escaped) + seq![c], escaped: 0, ..st }
    } else {
        SplitState { value: st.value + repeat('\\', st.escaped) + seq![c], escaped: 0, ..st }
    }
}

pub open spec fn split_run(s: Seq<char>) -> SplitState
    decreases s.len(),
{
    if s.len() == 0 {
        split_init()
    } else {
        split_step(split_run(s.drop_last()), s.last())
    }
}

/// The entries of a property list; a last entry that holds only whitespace
/// is dropped.
pub open spec fn spec_split_entries(s: Seq<char>) -> Seq<RawEntry> {
    let st = split_run(s);
    let name = if st.in_name { st.name + repeat('\\', st.escaped) } else { st.name };
    let value = if st.in_name { st.value } else { st.value + repeat('\\', st.escaped) };
    if st.in_name && spec_trim(name).len() == 0 {
        st.done
    } else {
        st.done.push(RawEntry { name, value, has_eq: !st.in_name })
    }
}

pub open spec fn spec_find_spec(schema: Seq<(Seq<char>, bool, Option<Seq<char>>)>, name: Seq<char>) -> bool {
    exists|i: int| 0 <= i < schema.len() && schema[i].0 == name
}

pub open spec fn spec_has_name(entries: Seq<(Seq<char>, Seq<char>)>, name: Seq<char>) -> bool {
    exists|i: int| 0 <= i < entries.len() && entries[i].0 == name
}

/// Validation of the split entries, in order: each is trimmed and must have
/// a name the element accepts, given once, and a value.
pub open spec fn spec_validate(
    raw: Seq<RawEntry>,
    schema: Seq<(Seq<char>, bool, Option<Seq<char>>)>,
) -> Result<Seq<(Seq<char>, Seq<char>)>, PropErrorKind>
    decreases raw.len(),
{
    if raw.len() == 0 {
        Ok(Seq::empty())
    } else {
        match spec_validate(raw.drop_last(), schema) {
            Err(e) => Err(e),
            Ok(prev) => {
                let e = raw.last();
                let name = spec_trim(e.name);
                let value = spec_trim(e.value);
                if name.len() == 0 {
                    Err(PropErrorKind::EmptyName)
                } else if !e.has_eq || value.len() == 0 {
                    Err(PropErrorKind::MissingValue(name))
                } else if !spec_find_spec(schema, name) {
                    Err(PropErrorKind::Unknown(name))
                } else if spec_has_name(prev, name) {
                    Err(PropErrorKind::Duplicate(name))
                } else {
                    Ok(prev.push((name, value)))
                }
            },
        }
    }
}

/// The properties of the schema that were not given, completed with their
/// defaults, in the order of the schema.
pub open spec fn spec_complete(
    given: Seq<(Seq<char>, Seq<char>)>,
    schema: Seq<(Seq<char>, bool, Option<Seq<char>>)>,
) -> Result<Seq<(Seq<char>, Seq<char>)>, PropErrorKind>
    decreases schema.len(),
{
    if schema.len() == 0 {
        Ok(given)
    } else {
        match spec_complete(given, schema.drop_last()) {
            Err(e) => Err(e),
            Ok(acc) => {
                let p = schema.last();
                if spec_has_name(given, p.0) {
                    Ok(acc)
                } else {
                    match p.2 {
                        Some(d) => Ok(acc.push((p.0, d))),
                        None => if p.1 {
                            Err(PropErrorKind::Missing(p.0))
                        } else {
                            Ok(acc)
                        },
                    }
                }
            },
        }
    }
}

/// Mathematical form of `PropError`.
pub enum PropErrorKind {
    MissingValue(Seq<char>),
    EmptyName,
    Unknown(Seq<char>),
    Duplicate(Seq<char>),
    Missing(Seq<char>),
}

impl PropError {
    pub open spec fn view(&self) -> PropErrorKind {
        match self {
            PropError::MissingValue(n) => PropErrorKind::MissingValue(n@),
            PropError::EmptyName => PropErrorKind::EmptyName,
            PropError::Unknown(n) => PropErrorKind::Unknown(n@),
            PropError::Duplicate(n) => PropErrorKind::Duplicate(n@),
            PropError::Missing(n) => PropErrorKind::Missing(n@),
        }
    }

    /// What the error says (see `spec_prop_error_message`).
    pub fn message(&self) -> (r: Vec<char>)
        ensures
            r@ == spec_prop_error_message(self.view()),
    {
        let mut out: Vec<char> = Vec::new();
        match self {
            PropError::MissingValue(n) => {
                push_str(&mut out, "Property `");
                push_chars(&mut out, n.as_slice());
                push_str(&mut out, "` has no value");
            },
            PropError::EmptyName => {
                push_str(&mut out, "A property has an empty name");
            },
            PropError::Unknown(n) => {
                push_str(&mut out, "Unknown property `");
                push_chars(&mut out, n.as_slice());
                push_str(&mut out, "`");
            },
            PropError::Duplicate(n) => {
                push_str(&mut out, "Property `");
                push_chars(&mut out, n.as_slice());
                push_str(&mut out, "` is given twice");
            },
            PropError::Missing(n) => {
                push_str(&mut out, "Missing property `");
                push_chars(&mut out, n.as_slice());
                push_str(&mut out, "`");
            },
        }
        out
    }
}

/// What a refused property list says of why it was refused.
pub open spec fn spec_prop_error_message(e: PropErrorKind) -> Seq<char> {
    match e {
        PropErrorKind::MissingValue(n) => "Property `"@ + n + "` has no value"@,
        PropErrorKind::EmptyName => "A property has an empty name"@,
        PropErrorKind::Unknown(n) => "Unknown property `"@ + n + "`"@,
        PropErrorKind::Duplicate(n) => "Property `"@ + n + "` is given twice"@,
        PropErrorKind::Missing(n) => "Missing property `"@ + n + "`"@,
    }
}

/// Schema of an element's properties as mathematical values.
pub open spec fn schema_view(schema: Seq<PropertySpec>) -> Seq<(Seq<char>, bool, Option<Seq<char>>)> {
    schema.map_values(
        |p: PropertySpec|
            (p.name@, p.required, match p.default {
                Some(d) => Some(d@),
                None => None,
            }),
    )
}

pub open spec fn entries_view(e: Seq<PropEntry>) -> Seq<(Seq<char>, Seq<char>)> {
    e.map_values(|p: PropEntry| (p.name@, p.value@))
}

/// The properties written in `s`, checked against `schema`.
pub open spec fn spec_parse_properties(
    s: Seq<char>,
    schema: Seq<(Seq<char>, bool, Option<Seq<char>>)>,
) -> Result<Seq<(Seq<char>, Seq<char>)>, PropErrorKind> {
    match spec_validate(spec_split_entries(s), schema) {
        Err(e) => Err(e),
        Ok(given) => spec_complete(given, schema),
    }
}


/// An entry as split from the text (executable form of `RawEntry`).
pub struct SplitEntry {
    pub name: Vec<char>,
    pub value: Vec<char>,
    pub has_eq: bool,
}

pub open spec fn split_view(e: Seq<SplitEntry>) -> Seq<RawEntry> {
    e.map_values(|x: SplitEntry| RawEntry { name: x.name@, value: x.value@, has_eq: x.has_eq })
}

fn append(dst: &mut Vec<char>, src: &Vec<char>)
    ensures
        final(dst)@ == old(dst)@ + src@,
{
    let mut i: usize = 0;
    let ghost start = dst@;
    while i < src.len()
        invariant
            0 <= i <= src@.len(),
            dst@ == start + src@.subrange(0, i as int),
        decreases src@.len() - i,
    {
        dst.push(src[i]);
        i += 1;
        assert(dst@ =~= start + src@.subrange(0, i as int));
    }
    assert(src@.subrange(0, src@.len() as int) =~= src@);
}

/// Splits `s` into property entries (see `spec_split_entries`).
pub fn split_entries(s: &[char]) -> (r: Vec<SplitEntry>)
    ensures
        split_view(r@) == spec_split_entries(s@),
{
    let mut done: Vec<SplitEntry> = Vec::new();
    let mut in_name = true;
    let mut name: Vec<char> = Vec::new();
    let mut value: Vec<char> = Vec::new();
    let mut escaped: usize = 0;
    let mut i: usize = 0;
    assert(s@.subrange(0, 0) =~= Seq::<char>::empty());
    assert(split_view(done@) =~= Seq::<RawEntry>::empty());
    while i < s.len()
        invariant
            0 <= i <= s@.len(),
            escaped <= i,
            split_run(s@.subrange(0, i as int)) == (SplitState {
                done: split_view(done@),
                in_name,
                name: name@,
                value: value@,
                escaped: escaped as nat,
            }),
        decreases s@.len() - i,
    {
        let c = s[i];
        let ghost st = SplitState {
            done: split_view(done@),
            in_name,
            name: name@,
            value: value@,
            escaped: escaped as nat,
        };
        proof {
            let p = s@.subrange(0, i + 1);
            assert(p.drop_last() =~= s@.subrange(0, i as int));
            assert(split_run(p) == split_step(st, c));
        }
        if c == '\\' {
            escaped += 1;
        } else if c == '=' && in_name {
            in_name = false;
            push_repeat(&mut name, '\\', escaped);
            escaped = 0;
        } else if c == ',' && !in_name && escaped % 2 == 0 {
            push_repeat(&mut value, '\\', escaped / 2);
            let e = SplitEntry { name, value, has_eq: true };
            let ghost ev = RawEntry { name: e.name@, value: e.value@, has_eq: true };
            let ghost dv = done@;
            done.push(e);
            assert(split_view(done@) =~= split_view(dv).push(ev));
            in_name = true;
            name = Vec::new();
            value = Vec::new();
            escaped = 0;
        } else if c == ',' && !in_name {
            push_repeat(&mut value, '\\', (escaped - 1) / 2);
            value.push(',');
            escaped = 0;
        } else if in_name {
            push_repeat(&mut name, '\\', escaped);
            name.push(c);
            escaped = 0;
        } else {
            push_repeat(&mut value, '\\', escaped);
            value.push(c);
            escaped = 0;
        }
        proof {
            let nx = split_step(st, c);
            assert(nx.name =~= name@);
            assert(nx.value =~= value@);
            assert(nx.done =~= split_view(done@));
        }
        i += 1;
    }
    assert(s@.subrange(0, s@.len() as int) =~= s@);
    if in_name {
        push_repeat(&mut name, '\\', escaped);
    } else {
        push_repeat(&mut value, '\\', escaped);
    }
    let tn = trim(&name);
    if in_name && tn.len() == 0 {
        done
    } else {
        let e = SplitEntry { name, value, has_eq: !in_name };
        let ghost ev = RawEntry { name: e.name@, value: e.value@, has_eq: !in_name };
        let ghost dv = done@;
        done.push(e);
        assert(split_view(done@) =~= split_view(dv).push(ev));
        done
    }
}

fn schema_has(schema: &Vec<PropertySpec>, name: &Vec<char>) -> (r: bool)
    ensures
        r == spec_find_spec(schema_view(schema@), name@),
{
    let mut i: usize = 0;
    while i < schema.len()
        invariant
            0 <= i <= schema@.len(),
            forall|j: int| 0 <= j < i ==> schema_view(schema@)[j].0 != name@,
        decreases schema@.len() - i,
    {
        if chars_eq(&schema[i].name, name) {
            assert(schema_view(schema@)[i as int].0 == name@);
            return true;
        }
        i += 1;
    }
    false
}

fn entries_have(entries: &Vec<PropEntry>, name: &Vec<char>) -> (r: bool)
    ensures
        r == spec_has_name(entries_view(entries@), name@),
{
    let mut i: usize = 0;
    while i < entries.len()
        invariant
            0 <= i <= entries@.len(),
            forall|j: int| 0 <= j < i ==> entries_view(entries@)[j].0 != name@,
        decreases entries@.len() - i,
    {
        if chars_eq(&entries[i].name, name) {
            assert(entries_view(entries@)[i as int].0 == name@);
            return true;
        }
        i += 1;
    }
    false
}

fn clone_chars(v: &Vec<char>) -> (r: Vec<char>)
    ensures
        r@ == v@,
{
    let mut r: Vec<char> = Vec::new();
    append(&mut r, v);
    r
}

/// Checks the split entries against `schema` (see `spec_validate`).
pub fn validate(raw: &Vec<SplitEntry>, schema: &Vec<PropertySpec>) -> (r: Result<Vec<PropEntry>, PropError>)
    ensures
        match r {
            Ok(v) => spec_validate(split_view(raw@), schema_view(schema@)) == Ok::<
                Seq<(Seq<char>, Seq<char>)>,
                PropErrorKind,
            >(entries_view(v@)),
            Err(e) => spec_validate(split_view(raw@), schema_view(schema@)) == Err::<
                Seq<(Seq<char>, Seq<char>)>,
                PropErrorKind,
            >(e.view()),
        },
{
    let mut acc: Vec<PropEntry> = Vec::new();
    let mut i: usize = 0;
    assert(split_view(raw@).subrange(0, 0) =~= Seq::<RawEntry>::empty());
    assert(entries_view(acc@) =~= Seq::<(Seq<char>, Seq<char>)>::empty());
    while i < raw.len()
        invariant
            0 <= i <= raw@.len(),
            spec_validate(split_view(raw@).subrange(0, i as int), schema_view(schema@)) == Ok::<
                Seq<(Seq<char>, Seq<char>)>,
                PropErrorKind,
            >(entries_view(acc@)),
        decreases raw@.len() - i,
    {
        let ghost sub = split_view(raw@).subrange(0, i + 1);
        proof {
            assert(sub.drop_last() =~= split_view(raw@).subrange(0, i as int));
        }
        let e = &raw[i];
        let name = trim(&e.name);
        let value = trim(&e.value);
        if name.len() == 0 {
            proof { assert(spec_validate(sub, schema_view(schema@)) == Err::<Seq<(Seq<char>, Seq<char>)>, PropErrorKind>(PropErrorKind::EmptyName)); lemma_validate_err_prefix(split_view(raw@), i as int + 1, schema_view(schema@)); }
            return Err(PropError::EmptyName);
        }
        if !e.has_eq || value.len() == 0 {
            proof { lemma_validate_err_prefix(split_view(raw@), i as int + 1, schema_view(schema@)); }
            return Err(PropError::MissingValue(name));
        }
        if !schema_has(schema, &name) {
            proof { lemma_validate_err_prefix(split_view(raw@), i as int + 1, schema_view(schema@)); }
            return Err(PropError::Unknown(name));
        }
        if entries_have(&acc, &name) {
            proof { lemma_validate_err_prefix(split_view(raw@), i as int + 1, schema_view(schema@)); }
            return Err(PropError::Duplicate(name));
        }
        let ghost av = entries_view(acc@);
        acc.push(PropEntry { name, value });
        assert(entries_view(acc@) =~= av.push((name@, value@)));
        i += 1;
    }
    assert(split_view(raw@).subrange(0, raw@.len() as int) =~= split_view(raw@));
    Ok(acc)
}

/// An error found on a prefix of the entries is the result on all of them.
proof fn lemma_validate_err_prefix(
    raw: Seq<RawEntry>,
    n: int,
    schema: Seq<(Seq<char>, bool, Option<Seq<char>>)>,
)
    requires
        0 <= n <= raw.len(),
        spec_validate(raw.subrange(0, n), schema) is Err,
    ensures
        spec_validate(raw, schema) == spec_validate(raw.subrange(0, n), schema),
    decreases raw.len() - n,
{
    if n < raw.len() {
        let sub = raw.subrange(0, n + 1);
        assert(sub.drop_last() =~= raw.subrange(0, n));
        lemma_validate_err_prefix(raw, n + 1, schema);
    } else {
        assert(raw.subrange(0, n) =~= raw);
    }
}

/// Completes the given properties with the defaults of `schema` (see
/// `spec_complete`).
pub fn complete(given: Vec<PropEntry>, schema: &Vec<PropertySpec>) -> (r: Result<Vec<PropEntry>, PropError>)
    ensures
        match r {
            Ok(v) => spec_complete(entries_view(given@), schema_view(schema@)) == Ok::<
                Seq<(Seq<char>, Seq<char>)>,
                PropErrorKind,
            >(entries_view(v@)),
            Err(e) => spec_complete(entries_view(given@), schema_view(schema@)) == Err::<
                Seq<(Seq<char>, Seq<char>)>,
                PropErrorKind,
            >(e.view()),
        },
{
    let ghost gv = entries_view(given@);
    let mut acc: Vec<PropEntry> = Vec::new();
    let mut k: usize = 0;
    while k < given.len()
        invariant
            0 <= k <= given@.len(),
            gv == entries_view(given@),
            entries_view(acc@) == gv.subrange(0, k as int),
        decreases given@.len() - k,
    {
        let e = PropEntry { name: clone_chars(&given[k].name), value: clone_chars(&given[k].value) };
        let ghost av = entries_view(acc@);
        acc.push(e);
        assert(gv[k as int] == (given@[k as int].name@, given@[k as int].value@));
        assert(entries_view(acc@) =~= av.push(gv[k as int]));
        assert(entries_view(acc@) =~= gv.subrange(0, k + 1));
        k += 1;
    }
    assert(gv.subrange(0, gv.len() as int) =~= gv);
    let mut i: usize = 0;
    assert(schema_view(schema@).subrange(0, 0) =~= Seq::<(Seq<char>, bool, Option<Seq<char>>)>::empty());
    while i < schema.len()
        invariant
            0 <= i <= schema@.len(),
            gv == entries_view(given@),
            spec_complete(gv, schema_view(schema@).subrange(0, i as int)) == Ok::<
                Seq<(Seq<char>, Seq<char>)>,
                PropErrorKind,
            >(entries_view(acc@)),
        decreases schema@.len() - i,
    {
        let ghost sub = schema_view(schema@).subrange(0, i + 1);
        proof {
            assert(sub.drop_last() =~= schema_view(schema@).subrange(0, i as int));
        }
        let p = &schema[i];
        if !entries_have(&given, &p.name) {
            match &p.default {
                Some(d) => {
                    let ghost av = entries_view(acc@);
                    acc.push(PropEntry { name: clone_chars(&p.name), value: clone_chars(d) });
                    assert(entries_view(acc@) =~= av.push((p.name@, d@)));
                },
                None => {
                    if p.required {
                        proof { lemma_complete_err_prefix(gv, schema_view(schema@), i as int + 1); }
                        return Err(PropError::Missing(clone_chars(&p.name)));
                    }
                },
            }
        }
        i += 1;
    }
    assert(schema_view(schema@).subrange(0, schema@.len() as int) =~= schema_view(schema@));
    Ok(acc)
}

proof fn lemma_complete_err_prefix(
    given: Seq<(Seq<char>, Seq<char>)>,
    schema: Seq<(Seq<char>, bool, Option<Seq<char>>)>,
    n: int,
)
    requires
        0 <= n <= schema.len(),
        spec_complete(given, schema.subrange(0, n)) is Err,
    ensures
        spec_complete(given, schema) == spec_complete(given, schema.subrange(0, n)),
    decreases schema.len() - n,
{
    if n < schema.len() {
        let sub = schema.subrange(0, n + 1);
        assert(sub.drop_last() =~= schema.subrange(0, n));
        lemma_complete_err_prefix(given, schema, n + 1);
    } else {
        assert(schema.subrange(0, n) =~= schema);
    }
}

/// The properties written in `s`, checked against `schema` and completed
/// with its defaults.
pub fn parse_properties(s: &[char], schema: &Vec<PropertySpec>) -> (r: Result<Vec<PropEntry>, PropError>)
    ensures
        match r {
            Ok(v) => spec_parse_properties(s@, schema_view(schema@)) == Ok::<
                Seq<(Seq<char>, Seq<char>)>,
                PropErrorKind,
            >(entries_view(v@)),
            Err(e) => spec_parse_properties(s@, schema_view(schema@)) == Err::<
                Seq<(Seq<char>, Seq<char>)>,
                PropErrorKind,
            >(e.view()),
        },
{
    let raw = split_entries(s);
    let given = validate(&raw, schema)?;
    complete(given, schema)
}

/// Value given to property `name`, if any.
pub open spec fn spec_lookup(e: Seq<(Seq<char>, Seq<char>)>, name: Seq<char>) -> Option<Seq<char>>
    decreases e.len(),
{
    if e.len() == 0 {
        None
    } else if e[0].0 == name {
        Some(e[0].1)
    } else {
        spec_lookup(e.drop_first(), name)
    }
}

/// Value of the property `name` in `entries`.
pub fn lookup(entries: &Vec<PropEntry>, name: &[char]) -> (r: Option<Vec<char>>)
    ensures
        match r {
            Some(v) => spec_lookup(entries_view(entries@), name@) == Some(v@),
            None => spec_lookup(entries_view(entries@), name@) is None,
        },
{
    let mut i: usize = 0;
    assert(entries_view(entries@).skip(0) =~= entries_view(entries@));
    while i < entries.len()
        invariant
            0 <= i <= entries@.len(),
            spec_lookup(entries_view(entries@), name@) == spec_lookup(
                entries_view(entries@).skip(i as int),
                name@,
            ),
        decreases entries@.len() - i,
    {
        let ghost rest = entries_view(entries@).skip(i as int);
        assert(rest.drop_first() =~= entries_view(entries@).skip(i + 1));
        if chars_eq(&entries[i].name, name) {
            return Some(clone_chars(&entries[i].value));
        }
        i += 1;
    }
    None
}


/// The tokens `t` with those of the entry `s[seg..e]` added, when it holds
/// a `=`: its name and its value, both trimmed, and the first `=`.
pub open spec fn spec_entry_tokens(t: Seq<SemToken>, s: Seq<char>, seg: int, e: int) -> Seq<SemToken> {
    match spec_find_char(s, seg, e, '=') {
        Some(eq) => {
            let n = spec_trim_bounds(s, seg as usize, eq as usize);
            let v = spec_trim_bounds(s, (eq + 1) as usize, e as usize);
            let t1 = spec_added(t, SemToken { start: n.0, end: n.1, kind: SemKind::PropName });
            let t2 = spec_added(t1, SemToken { start: eq as usize, end: (eq + 1) as usize, kind: SemKind::PropEqual });
            spec_added(t2, SemToken { start: v.0, end: v.1, kind: SemKind::PropValue })
        },
        None => t,
    }
}

/// A run of `escaped` backslashes one longer (counted up to `usize::MAX`).
pub open spec fn spec_more_escaped(escaped: usize) -> usize {
    if escaped < usize::MAX { (escaped + 1) as usize } else { escaped }
}

/// The tokens `t` with those of the property list `s[seg..to]` added, read
/// from `i` on, after a run of `escaped` backslashes: entries end at the end
/// of the list or at a `,` after an even run of backslashes; each gets its
/// tokens (see `spec_entry_tokens`), and each such `,` a token.
pub open spec fn spec_prop_tokens(t: Seq<SemToken>, s: Seq<char>, seg: int, i: int, to: int, escaped: usize) -> Seq<SemToken>
    decreases to - i,
{
    if i >= to || i < 0 || to > s.len() {
        spec_entry_tokens(t, s, seg, i)
    } else if s[i] == ',' && escaped % 2 == 0 {
        let t1 = spec_entry_tokens(t, s, seg, i);
        spec_prop_tokens(
            spec_added(t1, SemToken { start: i as usize, end: (i + 1) as usize, kind: SemKind::PropComma }),
            s,
            i + 1,
            i + 1,
            to,
            0,
        )
    } else if s[i] == '\\' {
        spec_prop_tokens(t, s, seg, i + 1, to, spec_more_escaped(escaped))
    } else {
        spec_prop_tokens(t, s, seg, i + 1, to, 0)
    }
}

/// Adds the semantic tokens of the property list `s[from..to]`: for each
/// entry (entries end at a `,` that follows an even run of backslashes), its
/// trimmed name, its `=` and its trimmed value, and a token for each `,`
/// between entries (see `spec_prop_tokens`).
pub fn add_property_tokens(s: &[char], from: usize, to: usize, sems: &mut crate::semantics::Semantics)
    requires
        from <= to <= s@.len(),
        old(sems).wf(),
    ensures
        final(sems).wf(),
        final(sems).tokens@ == spec_prop_tokens(old(sems).tokens@, s@, from as int, from as int, to as int, 0),
{
    let mut seg = from;
    let mut i = from;
    let mut escaped: usize = 0;
    let ghost target = spec_prop_tokens(sems.tokens@, s@, from as int, from as int, to as int, 0);
    while i <= to
        invariant_except_break
            spec_prop_tokens(sems.tokens@, s@, seg as int, i as int, to as int, escaped) == target,
        invariant
            from <= seg <= i,
            i <= to,
            to <= s@.len(),
            sems.wf(),
        ensures
            sems.wf(),
            sems.tokens@ == target,
        decreases to + 1 - i,
    {
        if i == to || (s[i] == ',' && escaped % 2 == 0) {
            let ghost before = sems.tokens@;
            match crate::scan::find_char(s, seg, i, '=') {
                Some(eq) => {
                    proof { crate::scan::lemma_find_char(s@, seg as int, i as int, '='); }
                    let (na, nb) = crate::text::trim_bounds(s, seg, eq);
                    let (va, vb) = crate::text::trim_bounds(s, eq + 1, i);
                    sems.add(na, nb, crate::semantics::SemKind::PropName);
                    sems.add(eq, eq + 1, crate::semantics::SemKind::PropEqual);
                    sems.add(va, vb, crate::semantics::SemKind::PropValue);
                },
                None => {},
            }
            assert(sems.tokens@ == spec_entry_tokens(before, s@, seg as int, i as int));
            if i == to {
                break;
            }
            sems.add(i, i + 1, crate::semantics::SemKind::PropComma);
            seg = i + 1;
            escaped = 0;
        } else if s[i] == '\\' {
            escaped = if escaped < usize::MAX { escaped + 1 } else { escaped };
        } else {
            escaped = 0;
        }
        i += 1;
    }
}

} // verus!
