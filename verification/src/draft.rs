//! A document's draft before it is written: the metadata a new document
//! starts with, and how a patch sets and clears fields. Metadata is a list
//! of fields, each a name and the JSON text of its value, where a later
//! field of a name replaces an earlier one, as in a JSON object.
use crate::clock::{instant, rfc3339_millis, MAX_INSTANT, MIN_INSTANT};
use crate::history::{field_view, Field};
use crate::mutation::DocKind;
use crate::reply::{is_rejection, AppError};
use crate::text::text_eq;
use vstd::prelude::*;

verus! {

pub open spec fn fields_view(v: Seq<Field>) -> Seq<(Seq<char>, Seq<char>)> {
    v.map_values(|f: Field| field_view(f))
}

/// The object a list of fields spells.
pub open spec fn object(v: Seq<(Seq<char>, Seq<char>)>) -> Map<Seq<char>, Seq<char>>
    decreases v.len(),
{
    if v.len() == 0 {
        Map::empty()
    } else {
        object(v.drop_last()).insert(v.last().0, v.last().1)
    }
}

/// A lowercase hexadecimal digit.
pub open spec fn hex_digit_char(n: int) -> char {
    if n < 10 {
        (n + 48) as char
    } else {
        (n + 87) as char
    }
}

/// How `serde_json` writes one character inside a string: `"` and `\`
/// behind a backslash; backspace, tab, line feed, form feed and carriage
/// return as `\b`, `\t`, `\n`, `\f`, `\r`; any other control character
/// below U+0020 as `\u00` and two lowercase hex digits; everything else as
/// itself.
pub open spec fn json_escape(c: char) -> Seq<char> {
    if c == '"' {
        seq!['\\', '"']
    } else if c == '\\' {
        seq!['\\', '\\']
    } else if c == '\u{8}' {
        seq!['\\', 'b']
    } else if c == '\t' {
        seq!['\\', 't']
    } else if c == '\n' {
        seq!['\\', 'n']
    } else if c == '\u{c}' {
        seq!['\\', 'f']
    } else if c == '\r' {
        seq!['\\', 'r']
    } else if (c as int) < 32 {
        seq!['\\', 'u', '0', '0', hex_digit_char((c as int) / 16), hex_digit_char((c as int) % 16)]
    } else {
        seq![c]
    }
}

pub open spec fn json_escaped(s: Seq<char>) -> Seq<char>
    decreases s.len(),
{
    if s.len() == 0 {
        seq![]
    } else {
        json_escaped(s.drop_last()) + json_escape(s.last())
    }
}

/// The JSON text of a string, as `serde_json` writes it: the escaped
/// characters between double quotes.
pub open spec fn json_text(s: Seq<char>) -> Seq<char> {
    seq!['"'] + json_escaped(s) + seq!['"']
}

/// `serde_json::to_string` of a string slice: its quoted, escaped JSON
/// text, with the escapes of serde_json's compact formatter. Writing a
/// string into memory cannot fail, so the error arm is never taken.
#[verifier::external_body]
fn json_string(s: &str) -> (res: String)
    ensures
        res@ == json_text(s@),
{
    match serde_json::to_string(s) {
        Ok(text) => text,
        Err(_) => String::new(),
    }
}

fn without(fields: &Vec<Field>, name: &str) -> (res: Vec<Field>)
    ensures
        object(fields_view(res@)) == object(fields_view(fields@)).remove(name@),
{
    let ghost all = fields_view(fields@);
    let mut out: Vec<Field> = Vec::new();
    let mut i: usize = 0;
    proof {
        assert(all.take(0) =~= Seq::<(Seq<char>, Seq<char>)>::empty());
        assert(object(fields_view(out@)) =~= object(all.take(0)).remove(name@));
    }
    while i < fields.len()
        invariant
            i <= fields@.len(),
            all == fields_view(fields@),
            object(fields_view(out@)) == object(all.take(i as int)).remove(name@),
        decreases fields@.len() - i,
    {
        let ghost prev = fields_view(out@);
        proof {
            let t = all.take(i + 1);
            assert(t.drop_last() =~= all.take(i as int));
            assert(t.last() == field_view(fields@[i as int]));
        }
        if !text_eq(fields[i].name.as_str(), name) {
            out.push(Field { name: fields[i].name.clone(), value: fields[i].value.clone() });
            proof {
                assert(fields_view(out@).drop_last() =~= prev);
                assert(object(fields_view(out@)) =~= object(all.take(i + 1)).remove(name@));
            }
        } else {
            assert(object(all.take(i + 1)).remove(name@) =~= object(all.take(i as int)).remove(name@));
        }
        i = i + 1;
    }
    assert(all.take(i as int) =~= all);
    out
}

fn put(fields: &Vec<Field>, name: &str, value: &str) -> (res: Vec<Field>)
    ensures
        object(fields_view(res@)) == object(fields_view(fields@)).insert(name@, value@),
{
    let mut out = without(fields, name);
    let ghost prev = fields_view(out@);
    out.push(Field { name: name.to_owned(), value: value.to_owned() });
    proof {
        assert(fields_view(out@).drop_last() =~= prev);
        assert(object(fields_view(out@)) =~= object(fields_view(fields@)).insert(name@, value@));
    }
    out
}

fn lookup(fields: &Vec<Field>, name: &str) -> (res: Option<String>)
    ensures
        match res {
            Some(v) => object(fields_view(fields@)).contains_key(name@) && object(fields_view(fields@))[name@] == v@,
            None => !object(fields_view(fields@)).contains_key(name@),
        },
{
    let ghost all = fields_view(fields@);
    let mut found: Option<String> = None;
    let mut i: usize = 0;
    while i < fields.len()
        invariant
            i <= fields@.len(),
            all == fields_view(fields@),
            match found {
                Some(v) => object(all.take(i as int)).contains_key(name@) && object(all.take(i as int))[name@] == v@,
                None => !object(all.take(i as int)).contains_key(name@),
            },
        decreases fields@.len() - i,
    {
        proof {
            let t = all.take(i + 1);
            assert(t.drop_last() =~= all.take(i as int));
            assert(t.last() == field_view(fields@[i as int]));
        }
        if text_eq(fields[i].name.as_str(), name) {
            found = Some(fields[i].value.clone());
        }
        i = i + 1;
    }
    assert(all.take(i as int) =~= all);
    found
}

/// A field given when absent.
pub open spec fn or_default(m: Map<Seq<char>, Seq<char>>, name: Seq<char>, value: Seq<char>) -> Map<Seq<char>, Seq<char>> {
    if m.contains_key(name) {
        m
    } else {
        m.insert(name, value)
    }
}

fn copy(fields: &Vec<Field>) -> (res: Vec<Field>)
    ensures
        fields_view(res@) == fields_view(fields@),
{
    let mut out: Vec<Field> = Vec::new();
    let mut i: usize = 0;
    while i < fields.len()
        invariant
            i <= fields@.len(),
            fields_view(out@) == fields_view(fields@).take(i as int),
        decreases fields@.len() - i,
    {
        let ghost prev = fields_view(out@);
        out.push(Field { name: fields[i].name.clone(), value: fields[i].value.clone() });
        assert(fields_view(out@) =~= prev.push(field_view(fields@[i as int])));
        assert(fields_view(fields@).take(i + 1) =~= fields_view(fields@).take(i as int).push(field_view(fields@[i as int])));
        i = i + 1;
    }
    assert(fields_view(fields@).take(i as int) =~= fields_view(fields@));
    out
}

fn put_default(fields: &Vec<Field>, name: &str, value: &str) -> (res: Vec<Field>)
    ensures
        object(fields_view(res@)) == or_default(object(fields_view(fields@)), name@, value@),
{
    match lookup(fields, name) {
        Some(_) => copy(fields),
        None => put(fields, name, value),
    }
}

/// The metadata a new document starts with: the payload without its body,
/// its ID, and its timestamps. A report records when it was recorded; any
/// other document when it was created and updated, with status `planned`
/// and not archived unless the payload says otherwise, and a card is an
/// `outcome` of `normal` priority unless it says otherwise. IDs and
/// timestamps are held as JSON strings.
pub open spec fn created_object(kind: DocKind, id: Seq<char>, now: Seq<char>, payload: Map<Seq<char>, Seq<char>>) -> Map<Seq<char>, Seq<char>> {
    let m = payload.remove("body"@).insert("id"@, id);
    if kind is Update {
        m.insert("recorded_at"@, now)
    } else {
        let t = m.insert("created_at"@, now).insert("updated_at"@, now);
        let d = or_default(or_default(t, "status"@, "\"planned\""@), "archived"@, "false"@);
        if kind is Card {
            or_default(or_default(d, "kind"@, "\"outcome\""@), "priority"@, "\"normal\""@)
        } else {
            d
        }
    }
}

/// What a new document's metadata holds. The body never stays in the
/// metadata; the ID is the one given. A report records when it was
/// recorded. A card or milestone records when it was created and updated,
/// is `"planned"` and not archived unless the payload says otherwise, and a
/// card is an `"outcome"` of `"normal"` priority unless the payload says
/// otherwise. Every other field of the payload is kept as given, and
/// nothing else is added.
pub proof fn lemma_created_metadata(kind: DocKind, id: Seq<char>, now: Seq<char>, payload: Map<Seq<char>, Seq<char>>)
    ensures
        payload.contains_key("body"@) ==> created_body(payload) == payload["body"@],
        !payload.contains_key("body"@) ==> created_body(payload) == "\"\""@,
        ({
            let m = created_object(kind, id, now, payload);
            &&& !m.contains_key("body"@)
            &&& m.contains_key("id"@) && m["id"@] == id
            &&& kind is Update ==> m.contains_key("recorded_at"@) && m["recorded_at"@] == now
            &&& !(kind is Update) ==> {
                &&& m.contains_key("created_at"@) && m["created_at"@] == now
                &&& m.contains_key("updated_at"@) && m["updated_at"@] == now
                &&& m.contains_key("status"@) && m["status"@] == (if payload.contains_key("status"@) { payload["status"@] } else { "\"planned\""@ })
                &&& m.contains_key("archived"@) && m["archived"@] == (if payload.contains_key("archived"@) { payload["archived"@] } else { "false"@ })
            }
            &&& kind is Card ==> {
                &&& m.contains_key("kind"@) && m["kind"@] == (if payload.contains_key("kind"@) { payload["kind"@] } else { "\"outcome\""@ })
                &&& m.contains_key("priority"@) && m["priority"@] == (if payload.contains_key("priority"@) { payload["priority"@] } else { "\"normal\""@ })
            }
            &&& forall|k: Seq<char>|
                #![trigger m.contains_key(k)]
                payload.contains_key(k) && k != "body"@ && k != "id"@ && k != "recorded_at"@ && k != "created_at"@ && k != "updated_at"@
                    ==> m.contains_key(k) && m[k] == payload[k]
            &&& forall|k: Seq<char>|
                #![trigger m.contains_key(k)]
                m.contains_key(k) ==> payload.contains_key(k) || k == "id"@ || k == "recorded_at"@ || k == "created_at"@
                    || k == "updated_at"@ || k == "status"@ || k == "archived"@ || k == "kind"@ || k == "priority"@
        }),
{
    reveal_strlit("body");
    reveal_strlit("id");
    reveal_strlit("recorded_at");
    reveal_strlit("created_at");
    reveal_strlit("updated_at");
    reveal_strlit("status");
    reveal_strlit("archived");
    reveal_strlit("kind");
    reveal_strlit("priority");
    assert("body"@[0] == 'b' && "id"@[0] == 'i' && "recorded_at"@[0] == 'r' && "created_at"@[0] == 'c');
    assert("updated_at"@[0] == 'u' && "status"@[0] == 's' && "archived"@[0] == 'a' && "kind"@[0] == 'k');
    assert("priority"@[0] == 'p');
    let base = payload.remove("body"@).insert("id"@, id);
    assert(!base.contains_key("body"@));
    if !(kind is Update) {
        let t = base.insert("created_at"@, now).insert("updated_at"@, now);
        let d = or_default(or_default(t, "status"@, "\"planned\""@), "archived"@, "false"@);
        assert(d.contains_key("status"@) && d["status"@] == (if payload.contains_key("status"@) { payload["status"@] } else { "\"planned\""@ }));
        assert(d.contains_key("archived"@) && d["archived"@] == (if payload.contains_key("archived"@) { payload["archived"@] } else { "false"@ }));
        if kind is Card {
            let with_kind = or_default(d, "kind"@, "\"outcome\""@);
            let c = or_default(with_kind, "priority"@, "\"normal\""@);
            assert(c.contains_key("kind"@) && c["kind"@] == (if payload.contains_key("kind"@) { payload["kind"@] } else { "\"outcome\""@ }));
        }
    }
}

/// A new document's body: the payload's, or the empty string.
pub open spec fn created_body(payload: Map<Seq<char>, Seq<char>>) -> Seq<char> {
    if payload.contains_key("body"@) {
        payload["body"@]
    } else {
        "\"\""@
    }
}

/// Drafts a new document from a create request's payload.
pub fn created(kind: DocKind, id: &str, payload: &Vec<Field>, now: i64) -> (res: (Vec<Field>, String))
    requires
        MIN_INSTANT <= now <= MAX_INSTANT,
    ensures
        object(fields_view(res.0@)) == created_object(kind, json_text(id@), json_text(rfc3339_millis(now as int)), object(fields_view(payload@))),
        res.1@ == created_body(object(fields_view(payload@))),
{
    let body = match lookup(payload, "body") {
        Some(b) => b,
        None => "\"\"".to_owned(),
    };
    let m = without(payload, "body");
    let id_text = json_string(id);
    let m = put(&m, "id", id_text.as_str());
    let stamp = json_string(instant(now).as_str());
    if kind == DocKind::Update {
        let m = put(&m, "recorded_at", stamp.as_str());
        return (m, body);
    }
    let m = put(&m, "created_at", stamp.as_str());
    let m = put(&m, "updated_at", stamp.as_str());
    let m = put_default(&m, "status", "\"planned\"");
    let m = put_default(&m, "archived", "false");
    if kind == DocKind::Card {
        let m = put_default(&m, "kind", "\"outcome\"");
        let m = put_default(&m, "priority", "\"normal\"");
        (m, body)
    } else {
        (m, body)
    }
}

/// The metadata after a patch: each set field replaces the field of its
/// name, the body aside, and then each cleared field is removed.
pub open spec fn patched_object(meta: Map<Seq<char>, Seq<char>>, set: Map<Seq<char>, Seq<char>>, clear: Seq<Seq<char>>) -> Map<Seq<char>, Seq<char>> {
    meta.union_prefer_right(set.remove("body"@)).remove_keys(clear.to_set())
}

/// The body after a patch: a set body replaces it.
pub open spec fn patched_body(body: Seq<char>, set: Map<Seq<char>, Seq<char>>) -> Seq<char> {
    if set.contains_key("body"@) {
        set["body"@]
    } else {
        body
    }
}

/// A patch sets the fields it sets, removes the fields it clears, keeps
/// every other field, and adds nothing else; the body is never a metadata
/// field, and the patch's body replaces the document's body.
pub proof fn lemma_patch_fields(meta: Map<Seq<char>, Seq<char>>, set: Map<Seq<char>, Seq<char>>, clear: Seq<Seq<char>>, body: Seq<char>, k: Seq<char>)
    ensures
        clear.contains(k) ==> !patched_object(meta, set, clear).contains_key(k),
        !clear.contains(k) && k != "body"@ && set.contains_key(k) ==> patched_object(meta, set, clear).contains_key(k)
            && patched_object(meta, set, clear)[k] == set[k],
        !clear.contains(k) && !(k != "body"@ && set.contains_key(k)) && meta.contains_key(k) ==> patched_object(meta, set, clear).contains_key(k)
            && patched_object(meta, set, clear)[k] == meta[k],
        patched_object(meta, set, clear).contains_key(k) ==> !clear.contains(k) && (meta.contains_key(k) || (set.contains_key(k) && k != "body"@)),
        set.contains_key("body"@) ==> patched_body(body, set) == set["body"@],
        !set.contains_key("body"@) ==> patched_body(body, set) == body,
{
}

/// A field both set and cleared.
pub open spec fn overlaps(set: Map<Seq<char>, Seq<char>>, clear: Seq<Seq<char>>) -> bool {
    exists|i: int| 0 <= i < clear.len() && set.contains_key(#[trigger] clear[i])
}

/// Applies a patch's `set` and `clear` to a document's metadata and body.
/// Setting and clearing one field is `422 SET_CLEAR_OVERLAP`.
pub fn patched(metadata: &Vec<Field>, body: &str, set: &Vec<Field>, clear: &Vec<String>) -> (res: Result<(Vec<Field>, String), AppError>)
    ensures
        overlaps(object(fields_view(set@)), clear@.map_values(|c: String| c@)) ==> (res matches Err(e) && is_rejection(e, 422, "SET_CLEAR_OVERLAP"@)),
        !overlaps(object(fields_view(set@)), clear@.map_values(|c: String| c@)) ==> (res matches Ok(r) && object(fields_view(r.0@)) == patched_object(
            object(fields_view(metadata@)),
            object(fields_view(set@)),
            clear@.map_values(|c: String| c@),
        ) && r.1@ == patched_body(body@, object(fields_view(set@)))),
{
    let ghost cl = clear@.map_values(|c: String| c@);
    let ghost so = object(fields_view(set@));
    let mut k: usize = 0;
    while k < clear.len()
        invariant
            k <= clear@.len(),
            cl == clear@.map_values(|c: String| c@),
            so == object(fields_view(set@)),
            forall|j: int| 0 <= j < k ==> !so.contains_key(#[trigger] cl[j]),
        decreases clear@.len() - k,
    {
        if lookup(set, clear[k].as_str()).is_some() {
            assert(so.contains_key(cl[k as int]));
            return Err(AppError::reject(422, "SET_CLEAR_OVERLAP"));
        }
        k = k + 1;
    }
    let ghost sv = fields_view(set@);
    let ghost mo = object(fields_view(metadata@));
    let mut meta = copy(metadata);
    let mut text = body.to_owned();
    let mut i: usize = 0;
    proof {
        assert(sv.take(0) =~= Seq::<(Seq<char>, Seq<char>)>::empty());
        assert(mo.union_prefer_right(object(sv.take(0)).remove("body"@)) =~= mo);
    }
    while i < set.len()
        invariant
            i <= set@.len(),
            sv == fields_view(set@),
            object(fields_view(meta@)) == mo.union_prefer_right(object(sv.take(i as int)).remove("body"@)),
            text@ == patched_body(body@, object(sv.take(i as int))),
        decreases set@.len() - i,
    {
        proof {
            let t = sv.take(i + 1);
            assert(t.drop_last() =~= sv.take(i as int));
            assert(t.last() == field_view(set@[i as int]));
        }
        if text_eq(set[i].name.as_str(), "body") {
            text = set[i].value.clone();
            assert(object(sv.take(i + 1)).remove("body"@) =~= object(sv.take(i as int)).remove("body"@));
        } else {
            meta = put(&meta, set[i].name.as_str(), set[i].value.as_str());
            assert(mo.union_prefer_right(object(sv.take(i + 1)).remove("body"@)) =~= mo.union_prefer_right(
                object(sv.take(i as int)).remove("body"@),
            ).insert(set@[i as int].name@, set@[i as int].value@));
        }
        i = i + 1;
    }
    assert(sv.take(i as int) =~= sv);
    let ghost merged = object(fields_view(meta@));
    let mut j: usize = 0;
    proof {
        assert(cl.take(0).to_set() =~= Set::<Seq<char>>::empty());
        assert(merged.remove_keys(cl.take(0).to_set()) =~= merged);
    }
    while j < clear.len()
        invariant
            j <= clear@.len(),
            cl == clear@.map_values(|c: String| c@),
            object(fields_view(meta@)) == merged.remove_keys(cl.take(j as int).to_set()),
        decreases clear@.len() - j,
    {
        proof {
            let t = cl.take(j + 1);
            assert(t =~= cl.take(j as int).push(cl[j as int]));
            cl.take(j as int).lemma_push_to_set_commute(cl[j as int]);
            assert(merged.remove_keys(t.to_set()) =~= merged.remove_keys(cl.take(j as int).to_set()).remove(cl[j as int]));
        }
        meta = without(&meta, clear[j].as_str());
        j = j + 1;
    }
    assert(cl.take(j as int) =~= cl);
    Ok((meta, text))
}

/// Applying a patch twice is applying it once, so a retried patch that was
/// already applied changes nothing more.
pub proof fn lemma_patch_twice(meta: Map<Seq<char>, Seq<char>>, body: Seq<char>, set: Map<Seq<char>, Seq<char>>, clear: Seq<Seq<char>>)
    ensures
        patched_object(patched_object(meta, set, clear), set, clear) == patched_object(meta, set, clear),
        patched_body(patched_body(body, set), set) == patched_body(body, set),
{
    assert(patched_object(patched_object(meta, set, clear), set, clear) =~= patched_object(meta, set, clear));
}

} // verus!
