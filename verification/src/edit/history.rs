//! What is recorded of edits: the values before and after, and how a file
//! looked when its edit was recorded.

use crate::catalog::same_bytes;
use crate::fsroot::Stat;
use crate::text::{opt_text, same_text, texts};
use vstd::prelude::*;
use vstd::string::*;

verus! {

// ---------------------------------------------------------------- values

/// An item of a recorded list.
#[derive(Debug)]
pub enum JsonItem {
    Text(String),
    /// Anything that is no text.
    Other,
}

/// A recorded value.
#[derive(Debug)]
pub enum JsonValue {
    Null,
    Text(String),
    Int(i64),
    List(Vec<JsonItem>),
    Other,
}

/// What a recorded value says.
#[verifier::ext_equal]
pub enum JsonText {
    Null,
    Text(Seq<char>),
    Int(i64),
    List(Seq<Option<Seq<char>>>),
    Other,
}

/// What an item of a list says.
pub open spec fn item_text(i: JsonItem) -> Option<Seq<char>> {
    match i {
        JsonItem::Text(s) => Some(s@),
        JsonItem::Other => None,
    }
}

/// What the items of a list say.
pub open spec fn item_texts(v: Seq<JsonItem>) -> Seq<Option<Seq<char>>> {
    v.map_values(|i: JsonItem| item_text(i))
}

impl View for JsonValue {
    type V = JsonText;

    open spec fn view(&self) -> JsonText {
        match self {
            JsonValue::Null => JsonText::Null,
            JsonValue::Text(s) => JsonText::Text(s@),
            JsonValue::Int(n) => JsonText::Int(*n),
            JsonValue::List(v) => JsonText::List(item_texts(v@)),
            JsonValue::Other => JsonText::Other,
        }
    }
}

/// The texts of a list.
pub open spec fn texts_in(items: Seq<Option<Seq<char>>>) -> Seq<Seq<char>>
    decreases items.len(),
{
    if items.len() == 0 {
        Seq::empty()
    } else {
        let r = texts_in(items.drop_last());
        match items.last() {
            Some(s) => r.push(s),
            None => r,
        }
    }
}

/// The values that a recorded value stands for: the texts of a list, none for
/// anything else.
pub open spec fn recorded_values(v: JsonText) -> Seq<Seq<char>> {
    match v {
        JsonText::List(items) => texts_in(items),
        _ => Seq::empty(),
    }
}

/// How values are recorded: as a list, nothing where there are none.
pub open spec fn values_recorded(values: Seq<Seq<char>>) -> JsonText {
    if values.len() == 0 {
        JsonText::Null
    } else {
        JsonText::List(values.map_values(|s: Seq<char>| Some(s)))
    }
}

/// The values that a recorded value stands for.
pub fn json_values(v: &JsonValue) -> (r: Vec<String>)
    ensures
        texts(r@) == recorded_values(v@),
{
    let mut out: Vec<String> = Vec::new();
    match v {
        JsonValue::List(items) => {
            let ghost t = item_texts(items@);
            let mut i: usize = 0;
            proof {
                assert(texts(out@) =~= texts_in(t.take(0)));
            }
            while i < items.len()
                invariant
                    i <= items@.len(),
                    t == item_texts(items@),
                    texts(out@) == texts_in(t.take(i as int)),
                decreases items@.len() - i,
            {
                let ghost before = texts(out@);
                proof {
                    assert(t.take(i + 1).last() == item_text(items@[i as int]));
                    assert(t.take(i + 1).drop_last() =~= t.take(i as int));
                }
                if let JsonItem::Text(s) = &items[i] {
                    out.push(s.clone());
                    proof {
                        assert(texts(out@) =~= before.push(s@));
                    }
                }
                i = i + 1;
            }
            proof {
                assert(t.take(i as int) =~= t);
            }
        },
        _ => {
            proof {
                assert(texts(out@) =~= Seq::empty());
            }
        },
    }
    out
}

/// How values are recorded.
pub fn values_json(values: &Vec<String>) -> (r: JsonValue)
    ensures
        r@ == values_recorded(texts(values@)),
{
    if values.len() == 0 {
        return JsonValue::Null;
    }
    let mut items: Vec<JsonItem> = Vec::new();
    let mut i: usize = 0;
    while i < values.len()
        invariant
            i <= values@.len(),
            items@.len() == i,
            forall|k: int| 0 <= k < i ==> item_text(#[trigger] items@[k]) == Some(values@[k]@),
        decreases values@.len() - i,
    {
        items.push(JsonItem::Text(values[i].clone()));
        i = i + 1;
    }
    proof {
        assert(item_texts(items@) =~= texts(values@).map_values(|s: Seq<char>| Some(s)));
    }
    JsonValue::List(items)
}

/// Values that were recorded are read back as they were.
pub proof fn law_values_round_trip(values: Seq<Seq<char>>)
    ensures
        recorded_values(values_recorded(values)) == values,
{
    if values.len() > 0 {
        lemma_texts_in(values);
    } else {
        assert(recorded_values(values_recorded(values)) =~= values);
    }
}

proof fn lemma_texts_in(values: Seq<Seq<char>>)
    ensures
        texts_in(values.map_values(|s: Seq<char>| Some(s))) == values,
    decreases values.len(),
{
    let m = values.map_values(|s: Seq<char>| Some(s));
    if values.len() == 0 {
        assert(texts_in(m) =~= values);
    } else {
        assert(m.drop_last() =~= values.drop_last().map_values(|s: Seq<char>| Some(s)));
        lemma_texts_in(values.drop_last());
        assert(texts_in(m) =~= values);
    }
}

/// The text of a recorded value, empty where it is no text.
pub open spec fn text_of(v: JsonText) -> Seq<char> {
    match v {
        JsonText::Text(s) => s,
        _ => Seq::empty(),
    }
}

/// The text of a recorded value, empty where it is no text.
pub fn json_text(v: &JsonValue) -> (r: String)
    ensures
        r@ == text_of(v@),
{
    match v {
        JsonValue::Text(s) => s.clone(),
        _ => String::new(),
    }
}

/// An edit of one key.
#[derive(Debug)]
pub struct Edit {
    pub key: String,
    pub old_value: JsonValue,
    pub new_value: JsonValue,
}

/// What an edit says: its key and the values before and after.
pub open spec fn edit_views(v: Seq<Edit>) -> Seq<(Seq<char>, JsonText, JsonText)> {
    v.map_values(|e: Edit| (e.key@, e.old_value@, e.new_value@))
}

/// The first edit of a key.
pub open spec fn edit_at(edits: Seq<Edit>, key: Seq<char>, i: int) -> bool {
    &&& 0 <= i < edits.len()
    &&& edits[i].key@ == key
    &&& forall|k: int| 0 <= k < i ==> (#[trigger] edits[k]).key@ != key
}

/// No edit is of the key.
pub open spec fn no_edit(edits: Seq<Edit>, key: Seq<char>) -> bool {
    forall|k: int| 0 <= k < edits.len() ==> (#[trigger] edits[k]).key@ != key
}

/// The first edit of a key.
pub fn find_edit(edits: &Vec<Edit>, key: &str) -> (r: Option<usize>)
    ensures
        match r {
            Some(i) => edit_at(edits@, key@, i as int),
            None => no_edit(edits@, key@),
        },
{
    let mut i: usize = 0;
    while i < edits.len()
        invariant
            i <= edits@.len(),
            forall|k: int| 0 <= k < i ==> (#[trigger] edits@[k]).key@ != key@,
        decreases edits@.len() - i,
    {
        if same_text(&edits[i].key, key) {
            return Some(i);
        }
        i = i + 1;
    }
    None
}

// ---------------------------------------------------------------- preconditions

/// How a file looked when an operation on it was recorded.
#[derive(Debug)]
pub struct Precondition {
    pub rel_path: Option<String>,
    pub dev: Option<i64>,
    pub inode: Option<i64>,
    pub size: Option<i64>,
    pub mtime_ns: Option<i64>,
    pub ctime_ns: Option<i64>,
    pub tag_hash: Option<Vec<u8>>,
}

/// A precondition that says the same.
pub open spec fn same_precondition(a: Precondition, b: Precondition) -> bool {
    &&& opt_text(a.rel_path) == opt_text(b.rel_path)
    &&& a.dev == b.dev
    &&& a.inode == b.inode
    &&& a.size == b.size
    &&& a.mtime_ns == b.mtime_ns
    &&& a.ctime_ns == b.ctime_ns
    &&& opt_bytes(a.tag_hash) == opt_bytes(b.tag_hash)
}

/// A copy of a precondition.
pub fn clone_precondition(p: &Precondition) -> (r: Precondition)
    ensures
        same_precondition(r, *p),
{
    let tag_hash = match &p.tag_hash {
        Some(h) => {
            let c = h.clone();
            proof {
                assert(c@ =~= h@);
            }
            Some(c)
        },
        None => None,
    };
    Precondition {
        rel_path: p.rel_path.clone(),
        dev: p.dev,
        inode: p.inode,
        size: p.size,
        mtime_ns: p.mtime_ns,
        ctime_ns: p.ctime_ns,
        tag_hash,
    }
}

/// The view of an optional digest.
pub open spec fn opt_bytes(o: Option<Vec<u8>>) -> Option<Seq<u8>> {
    match o {
        Some(v) => Some(v@),
        None => None,
    }
}

/// What of a file differs from a precondition, besides the time of its inode.
pub open spec fn solid_mismatches(p: Precondition, st: Stat, hash: Seq<u8>) -> Seq<Seq<char>> {
    name_if(p.inode != Some(st.inode as i64), "inode"@) + name_if(p.size != Some(st.size as i64), "size"@) + name_if(
        p.mtime_ns != Some(st.mtime_ns),
        "mtime_ns"@,
    ) + name_if(opt_bytes(p.tag_hash) != Some(hash), "tag_hash"@)
}

/// A name where the condition holds.
pub open spec fn name_if(b: bool, name: Seq<char>) -> Seq<Seq<char>> {
    if b {
        seq![name]
    } else {
        Seq::empty()
    }
}

/// What of a file differs from a precondition. Moving a file touches the time of
/// its inode: for a file that was moved that time alone is no difference. The
/// device is not compared; its number changes from mount to mount.
pub open spec fn mismatch_names(p: Precondition, st: Stat, hash: Seq<u8>, rel_path: Seq<char>) -> Seq<Seq<char>> {
    let solid = solid_mismatches(p, st, hash);
    let moved = opt_text(p.rel_path) != Some(rel_path);
    solid + name_if(p.ctime_ns != Some(st.ctime_ns) && !(moved && solid.len() == 0), "ctime_ns"@)
}

/// Notes a name where the condition holds.
pub fn note_if(out: &mut Vec<String>, b: bool, name: &str)
    ensures
        texts(final(out)@) == texts(old(out)@) + name_if(b, name@),
{
    let ghost before = texts(out@);
    if b {
        out.push(name.to_owned());
    }
    proof {
        assert(texts(out@) =~= before + name_if(b, name@));
    }
}

/// What of a file differs from a precondition (see [`mismatch_names`]).
pub fn mismatches(p: &Precondition, st: &Stat, hash: &[u8; 32], rel_path: &str) -> (r: Vec<String>)
    ensures
        texts(r@) == mismatch_names(*p, *st, hash@, rel_path@),
{
    let mut out: Vec<String> = Vec::new();
    let moved = match &p.rel_path {
        Some(x) => !same_text(x, rel_path),
        None => true,
    };
    let ghost e = Seq::<Seq<char>>::empty();
    let ghost a = name_if(p.inode != Some(st.inode as i64), "inode"@);
    note_if(&mut out, p.inode != Some(st.inode as i64), "inode");
    proof {
        assert(texts(out@) =~= a);
    }
    let ghost b = name_if(p.size != Some(st.size as i64), "size"@);
    note_if(&mut out, p.size != Some(st.size as i64), "size");
    proof {
        assert(texts(out@) =~= a + b);
    }
    let ghost c = name_if(p.mtime_ns != Some(st.mtime_ns), "mtime_ns"@);
    note_if(&mut out, p.mtime_ns != Some(st.mtime_ns), "mtime_ns");
    proof {
        assert(texts(out@) =~= a + b + c);
    }
    let same_hash = match &p.tag_hash {
        Some(h) => same_bytes(h.as_slice(), hash.as_slice()),
        None => false,
    };
    let ghost d = name_if(opt_bytes(p.tag_hash) != Some(hash@), "tag_hash"@);
    note_if(&mut out, !same_hash, "tag_hash");
    proof {
        assert(texts(out@) =~= a + b + c + d);
        assert(texts(out@).len() == out@.len());
    }
    let solid = out.len() > 0;
    let ghost f = name_if(p.ctime_ns != Some(st.ctime_ns) && !(moved && !solid), "ctime_ns"@);
    note_if(&mut out, p.ctime_ns != Some(st.ctime_ns) && !(moved && !solid), "ctime_ns");
    proof {
        assert(texts(out@) =~= a + b + c + d + f);
    }
    out
}

/// A file that was not moved differs in nothing exactly where inode, size, both
/// times and the tags are as recorded.
pub proof fn law_no_mismatch_means_untouched(p: Precondition, st: Stat, hash: Seq<u8>, rel_path: Seq<char>)
    ensures
        mismatch_names(p, st, hash, rel_path).len() == 0 ==> p.inode == Some(st.inode as i64) && p.size == Some(
            st.size as i64,
        ) && p.mtime_ns == Some(st.mtime_ns) && opt_bytes(p.tag_hash) == Some(hash) && (p.ctime_ns == Some(st.ctime_ns)
            || opt_text(p.rel_path) != Some(rel_path)),
        p.inode == Some(st.inode as i64) && p.size == Some(st.size as i64) && p.mtime_ns == Some(st.mtime_ns)
            && opt_bytes(p.tag_hash) == Some(hash) && p.ctime_ns == Some(st.ctime_ns) ==> mismatch_names(
            p,
            st,
            hash,
            rel_path,
        ).len() == 0,
{
}

// ---------------------------------------------------------------- states

/// How an operation ended, or that it waits.
#[derive(Debug, Clone, Copy, PartialEq, Eq, Structural)]
pub enum OpResult {
    Pending,
    Applied,
    SkippedConflict,
    Failed,
}

/// Where a job stands.
#[derive(Debug, Clone, Copy, PartialEq, Eq, Structural)]
pub enum JobState {
    Queued,
    Running,
    Done,
    Failed,
    Cancelled,
}

// ---------------------------------------------------------------- laws

/// Each mark of a file that differs from what was recorded is named. The time of its state counts unless the
/// file was only moved: then everything else is as recorded, and its path is another one.
pub proof fn law_mismatches_are_named(p: Precondition, st: Stat, hash: Seq<u8>, rel_path: Seq<char>)
    ensures
        p.inode != Some(st.inode as i64) ==> mismatch_names(p, st, hash, rel_path).contains("inode"@),
        p.size != Some(st.size as i64) ==> mismatch_names(p, st, hash, rel_path).contains("size"@),
        p.mtime_ns != Some(st.mtime_ns) ==> mismatch_names(p, st, hash, rel_path).contains("mtime_ns"@),
        opt_bytes(p.tag_hash) != Some(hash) ==> mismatch_names(p, st, hash, rel_path).contains("tag_hash"@),
        p.ctime_ns != Some(st.ctime_ns) && opt_text(p.rel_path) == Some(rel_path) ==> mismatch_names(
            p,
            st,
            hash,
            rel_path,
        ).contains("ctime_ns"@),
        p.inode == Some(st.inode as i64) && p.size == Some(st.size as i64) && p.mtime_ns == Some(st.mtime_ns)
            && opt_bytes(p.tag_hash) == Some(hash) && opt_text(p.rel_path) != Some(rel_path) ==> mismatch_names(
            p,
            st,
            hash,
            rel_path,
        ).len() == 0,
{
    let a = name_if(p.inode != Some(st.inode as i64), "inode"@);
    let b = name_if(p.size != Some(st.size as i64), "size"@);
    let c = name_if(p.mtime_ns != Some(st.mtime_ns), "mtime_ns"@);
    let d = name_if(opt_bytes(p.tag_hash) != Some(hash), "tag_hash"@);
    let all = mismatch_names(p, st, hash, rel_path);
    if a.len() > 0 {
        assert(all[0] == "inode"@);
    }
    if b.len() > 0 {
        assert(all[a.len() as int] == "size"@);
    }
    if c.len() > 0 {
        assert(all[a.len() + b.len() as int] == "mtime_ns"@);
    }
    if d.len() > 0 {
        assert(all[a.len() + b.len() + c.len() as int] == "tag_hash"@);
    }
    if p.ctime_ns != Some(st.ctime_ns) && opt_text(p.rel_path) == Some(rel_path) {
        assert(all.last() == "ctime_ns"@);
    }
}

/// Two preconditions are the same where they say the same of the path, the file and its tags.
pub proof fn law_same_precondition(a: Precondition, b: Precondition, st: Stat, hash: Seq<u8>, rel_path: Seq<char>)
    requires
        same_precondition(a, b),
    ensures
        mismatch_names(a, st, hash, rel_path) == mismatch_names(b, st, hash, rel_path),
        opt_text(a.rel_path) == opt_text(b.rel_path),
{
}

/// A value is read as what it is: a text as itself, anything else as no text; a list as the texts in it.
pub proof fn law_values_as_recorded(s: String, n: i64, v: Vec<JsonItem>, i: int)
    ensures
        JsonValue::Text(s)@ == JsonText::Text(s@),
        JsonValue::Int(n)@ == JsonText::Int(n),
        JsonValue::Null@ == JsonText::Null,
        JsonValue::List(v)@ == JsonText::List(item_texts(v@)),
        0 <= i < v@.len() ==> (v@[i] matches JsonItem::Text(t) ==> item_texts(v@)[i] == Some(t@)),
        text_of(JsonText::Text(s@)) == s@,
        text_of(JsonText::Null).len() == 0,
{
}

/// An edit is found by its key.
pub proof fn law_edit_of_a_key(edits: Seq<Edit>, key: Seq<char>, i: int)
    ensures
        edit_at(edits, key, i) ==> 0 <= i < edits.len() && edits[i].key@ == key && !no_edit(edits, key),
        0 <= i < edits.len() && edits[i].key@ == key && (forall|k: int| 0 <= k < i ==> (#[trigger] edits[k]).key@ != key)
            ==> edit_at(edits, key, i),
        0 <= i < edits.len() ==> edit_views(edits)[i] == (edits[i].key@, edits[i].old_value@, edits[i].new_value@),
{
    if edit_at(edits, key, i) {
        assert(edits[i].key@ == key);
    }
}

} // verus!
