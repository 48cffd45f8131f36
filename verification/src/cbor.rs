//! CBOR items: what the records of this library are written as and read from.
//!
//! `ciborium` turns an item into bytes and bytes into an item. Which item stands for
//! which record is this library's own rule, and is stated and proved beside each
//! record.

use ciborium::Value;
use vstd::prelude::*;

use crate::bytes::{array32, copy_all, same_bytes};
use crate::types::same_text;

verus! {

/// A CBOR item, as far as the records of this library use them.
pub enum Item {
    Uint(u64),
    Bytes(Seq<u8>),
    Text(Seq<char>),
    Array(Seq<Item>),
    Pairs(Seq<(Item, Item)>),
    Null,
    /// An item with a tag on it.
    Tagged(Box<Item>),
    /// Anything else: negative and large integers, floats, booleans.
    Other,
}

/// An item without the tags on it and in it, which no record looks at. A tag on a null is
/// no null, though: where something may be missing, only a bare null says that it is.
pub open spec fn untagged(item: Item) -> Item
    decreases item,
{
    match item {
        Item::Tagged(inner) => match untagged(*inner) {
            Item::Null => Item::Other,
            x => x,
        },
        Item::Array(items) => Item::Array(
            Seq::new(
                items.len(),
                |i: int|
                    if 0 <= i < items.len() {
                        untagged(items[i])
                    } else {
                        Item::Other
                    },
            ),
        ),
        Item::Pairs(es) => Item::Pairs(
            Seq::new(
                es.len(),
                |i: int|
                    if 0 <= i < es.len() {
                        (untagged(es[i].0), untagged(es[i].1))
                    } else {
                        (Item::Other, Item::Other)
                    },
            ),
        ),
        _ => item,
    }
}

/// `ciborium::Value`, a CBOR item in memory.
#[verifier::external_type_specification]
#[verifier::external_body]
pub struct ExValue(ciborium::Value);

/// The item that a `ciborium::Value` holds.
pub uninterp spec fn item_of(v: Value) -> Item;

/// The outermost layer of an item, with the items inside it still packed.
pub enum Parts<'a> {
    Uint(u64),
    Bytes(&'a Vec<u8>),
    Text(&'a String),
    Array(&'a Vec<Value>),
    Pairs(&'a Vec<(Value, Value)>),
    Null,
    Tagged(&'a Value),
    Other,
}

pub open spec fn items_of(vs: Seq<Value>) -> Seq<Item> {
    vs.map_values(|v: Value| item_of(v))
}

pub open spec fn entries_of(vs: Seq<(Value, Value)>) -> Seq<(Item, Item)> {
    vs.map_values(|e: (Value, Value)| (item_of(e.0), item_of(e.1)))
}

/// The item that a value holds, as records look at it.
pub open spec fn seen(v: Value) -> Item {
    untagged(item_of(v))
}

pub open spec fn seen_items(vs: Seq<Value>) -> Seq<Item> {
    vs.map_values(|v: Value| seen(v))
}

pub open spec fn seen_entries(vs: Seq<(Value, Value)>) -> Seq<(Item, Item)> {
    vs.map_values(|e: (Value, Value)| (seen(e.0), seen(e.1)))
}

impl<'a> Parts<'a> {
    /// The item as records look at it, where it has no tag.
    pub open spec fn shown(self) -> Item {
        match self {
            Parts::Uint(n) => Item::Uint(n),
            Parts::Bytes(b) => Item::Bytes(b@),
            Parts::Text(s) => Item::Text(s@),
            Parts::Array(vs) => Item::Array(seen_items(vs@)),
            Parts::Pairs(es) => Item::Pairs(seen_entries(es@)),
            Parts::Null => Item::Null,
            Parts::Tagged(_) | Parts::Other => Item::Other,
        }
    }

    pub open spec fn item(self) -> Item {
        match self {
            Parts::Uint(n) => Item::Uint(n),
            Parts::Bytes(b) => Item::Bytes(b@),
            Parts::Text(s) => Item::Text(s@),
            Parts::Array(vs) => Item::Array(items_of(vs@)),
            Parts::Pairs(es) => Item::Pairs(entries_of(es@)),
            Parts::Null => Item::Null,
            Parts::Tagged(v) => Item::Tagged(Box::new(item_of(*v))),
            Parts::Other => Item::Other,
        }
    }
}

/// Looks at the variant of a `ciborium::Value` and lends out what it holds. An
/// integer outside the range of `u64` counts as [`Item::Other`].
#[verifier::external_body]
fn parts(v: &Value) -> (r: Parts<'_>)
    ensures
        r.item() == item_of(*v),
{
    match v {
        Value::Integer(n) => u64::try_from(*n).map_or(Parts::Other, Parts::Uint),
        Value::Bytes(b) => Parts::Bytes(b),
        Value::Text(s) => Parts::Text(s),
        Value::Array(vs) => Parts::Array(vs),
        Value::Map(es) => Parts::Pairs(es),
        Value::Null => Parts::Null,
        Value::Tag(_, inner) => Parts::Tagged(inner),
        _ => Parts::Other,
    }
}

/// The outermost layer of an item as records look at it, below whatever tags are on it.
fn look<'a>(v: &'a Value) -> (r: Parts<'a>)
    ensures
        r.shown() == seen(*v),
        !(r is Tagged),
{
    let mut at: &'a Value = v;
    let mut tagged = false;
    loop
        invariant
            seen(*v) == if tagged && seen(*at) is Null {
                Item::Other
            } else {
                seen(*at)
            },
        decreases item_of(*at),
    {
        match parts(at) {
            Parts::Tagged(inner) => {
                at = inner;
                tagged = true;
            },
            Parts::Null => {
                return if tagged {
                    Parts::Other
                } else {
                    Parts::Null
                };
            },
            p => {
                proof {
                    shown_is_seen(p, *at);
                }
                return p;
            },
        }
    }
}

proof fn shown_is_seen(p: Parts<'_>, v: Value)
    requires
        p.item() == item_of(v),
        !(p is Tagged),
    ensures
        p.shown() == seen(v),
{
    match p {
        Parts::Array(vs) => {
            assert(seen(v)->Array_0 =~= seen_items(vs@));
        },
        Parts::Pairs(es) => {
            assert(seen(v)->Pairs_0 =~= seen_entries(es@));
        },
        _ => {},
    }
}

/// `ciborium::Value::Integer` of a `u64`.
#[verifier::external_body]
pub(crate) fn uint(n: u64) -> (r: Value)
    ensures
        item_of(r) == Item::Uint(n),
{
    Value::Integer(n.into())
}

/// `ciborium::Value::Bytes`.
#[verifier::external_body]
pub(crate) fn byte_string(b: Vec<u8>) -> (r: Value)
    ensures
        item_of(r) == Item::Bytes(b@),
{
    Value::Bytes(b)
}

/// `ciborium::Value::Text`.
#[verifier::external_body]
pub(crate) fn text(s: String) -> (r: Value)
    ensures
        item_of(r) == Item::Text(s@),
{
    Value::Text(s)
}

/// `ciborium::Value::Array`.
#[verifier::external_body]
pub(crate) fn array(vs: Vec<Value>) -> (r: Value)
    ensures
        item_of(r) == Item::Array(items_of(vs@)),
{
    Value::Array(vs)
}

/// `ciborium::Value::Map`, its entries in the order given.
#[verifier::external_body]
pub(crate) fn map_item(es: Vec<(Value, Value)>) -> (r: Value)
    ensures
        item_of(r) == Item::Pairs(entries_of(es@)),
{
    Value::Map(es)
}

/// `ciborium::Value::Null`.
#[verifier::external_body]
pub(crate) fn null() -> (r: Value)
    ensures
        item_of(r) == Item::Null,
{
    Value::Null
}

/// Whether an item is made of the kinds this library writes, nested at most
/// `depth` deep.
pub open spec fn plain(item: Item, depth: nat) -> bool
    decreases depth,
{
    match item {
        Item::Uint(_) | Item::Bytes(_) | Item::Text(_) | Item::Null => true,
        Item::Array(items) => depth > 0 && forall|i: int|
            0 <= i < items.len() ==> plain(#[trigger] items[i], (depth - 1) as nat),
        Item::Pairs(entries) => depth > 0 && forall|i: int|
            0 <= i < entries.len() ==> plain((#[trigger] entries[i]).0, (depth - 1) as nat)
                && plain(entries[i].1, (depth - 1) as nat),
        Item::Tagged(_) | Item::Other => false,
    }
}

/// An item of the kinds this library writes has no tags.
pub proof fn plain_is_untagged(item: Item, depth: nat)
    requires
        plain(item, depth),
    ensures
        untagged(item) == item,
    decreases depth,
{
    match item {
        Item::Array(items) => {
            assert forall|i: int| 0 <= i < items.len() implies untagged(#[trigger] items[i])
                == items[i] by {
                plain_is_untagged(items[i], (depth - 1) as nat);
            }
            assert(untagged(item)->Array_0 =~= items);
        },
        Item::Pairs(es) => {
            assert forall|i: int| 0 <= i < es.len() implies (
                untagged((#[trigger] es[i]).0),
                untagged(es[i].1),
            ) == es[i] by {
                plain_is_untagged(es[i].0, (depth - 1) as nat);
                plain_is_untagged(es[i].1, (depth - 1) as nat);
            }
            assert(untagged(item)->Pairs_0 =~= es);
        },
        _ => {},
    }
}

/// How deep the records of this library nest at most.
pub open spec fn max_depth() -> nat {
    12
}

/// The bytes that an item is written as.
pub uninterp spec fn bytes_of(item: Item) -> Seq<u8>;

/// The item that stands at the start of a byte string, or why none does.
pub uninterp spec fn item_read(data: Seq<u8>) -> Result<Item, Seq<char>>;

/// The head of a byte string of `n` bytes, `n` at least 24.
pub open spec fn byte_string_head(n: u8) -> Seq<u8> {
    seq![0x58u8, n]
}

/// `ciborium::into_writer` into a `Vec`, which takes every byte. An item of plain
/// kinds, nested less deep than the reader's limit, is read back as it was written.
/// A byte string of 24 to 255 bytes is written as its two-byte head and its bytes.
#[verifier::external_body]
pub(crate) fn encode_value(v: &Value) -> (r: Result<Vec<u8>, String>)
    requires
        plain(item_of(*v), max_depth()),
    ensures
        r is Ok && r->Ok_0@ == bytes_of(item_of(*v)),
        item_read(r->Ok_0@) is Ok && item_read(r->Ok_0@)->Ok_0 == item_of(*v),
        item_of(*v) is Bytes && 24 <= item_of(*v)->Bytes_0.len() < 256 ==> r->Ok_0@
            == byte_string_head(item_of(*v)->Bytes_0.len() as u8) + item_of(*v)->Bytes_0,
{
    let mut out = Vec::new();
    ciborium::into_writer(v, &mut out).map_err(|e| e.to_string())?;
    Ok(out)
}

/// `ciborium::from_reader` of one item; what follows it in `data` is not looked at.
#[verifier::external_body]
pub(crate) fn decode_value(data: &[u8]) -> (r: Result<Value, String>)
    ensures
        r matches Ok(v) ==> item_read(data@) is Ok && item_read(data@)->Ok_0 == item_of(v),
        r matches Err(e) ==> item_read(data@) is Err && item_read(data@)->Err_0 == e@,
{
    ciborium::from_reader(data).map_err(|e: ciborium::de::Error<std::io::Error>| e.to_string())
}

// ---------------------------------------------------------------------------
// Byte sequences
// ---------------------------------------------------------------------------

/// The bytes that an item holds: a byte string, or an array of small integers.
pub open spec fn octets_of(item: Item) -> Option<Seq<u8>> {
    match item {
        Item::Bytes(b) => Some(b),
        Item::Array(items) => if forall|i: int|
            0 <= i < items.len() ==> is_octet(#[trigger] items[i]) {
            Some(items.map_values(|x: Item| x->Uint_0 as u8))
        } else {
            None
        },
        _ => None,
    }
}

pub open spec fn is_octet(item: Item) -> bool {
    item is Uint && item->Uint_0 < 256
}

/// A byte sequence as an array of integers.
pub open spec fn octet_array(b: Seq<u8>) -> Item {
    Item::Array(b.map_values(|x: u8| Item::Uint(x as u64)))
}

/// Reading an array of integers gives back the bytes it was made of.
pub proof fn octet_array_roundtrip(b: Seq<u8>)
    ensures
        octets_of(octet_array(b)) == Some(b),
        plain(octet_array(b), 1),
{
    let items = b.map_values(|x: u8| Item::Uint(x as u64));
    assert forall|i: int| 0 <= i < items.len() implies is_octet(#[trigger] items[i]) by {
        assert(items[i] == Item::Uint(b[i] as u64));
    }
    assert(items.map_values(|x: Item| x->Uint_0 as u8) =~= b);
    reveal_with_fuel(plain, 2);
}

pub(crate) fn octet_array_value(b: &[u8]) -> (r: Value)
    ensures
        item_of(r) == octet_array(b@),
{
    let mut vs: Vec<Value> = Vec::new();
    for i in 0..b.len()
        invariant
            items_of(vs@) == b@.subrange(0, i as int).map_values(|x: u8| Item::Uint(x as u64)),
    {
        let ghost before = items_of(vs@);
        vs.push(uint(b[i] as u64));
        assert(items_of(vs@) =~= before.push(Item::Uint(b@[i as int] as u64)));
        assert(items_of(vs@) =~= b@.subrange(0, i + 1).map_values(|x: u8| Item::Uint(x as u64)));
    }
    assert(b@.subrange(0, b@.len() as int) =~= b@);
    array(vs)
}

pub(crate) fn octets(v: &Value) -> (r: Option<Vec<u8>>)
    ensures
        match r {
            Some(b) => octets_of(seen(*v)) == Some(b@),
            None => octets_of(seen(*v)) is None,
        },
{
    match look(v) {
        Parts::Bytes(b) => Some(copy_all(b)),
        Parts::Array(vs) => {
            let ghost items = seen_items(vs@);
            let mut out: Vec<u8> = Vec::new();
            for i in 0..vs.len()
                invariant
                    items == seen_items(vs@),
                    seen(*v) == Item::Array(items),
                    out@.len() == i,
                    forall|j: int|
                        0 <= j < i ==> is_octet(#[trigger] items[j]) && out@[j]
                            == items[j]->Uint_0 as u8,
            {
                let ghost x = items[i as int];
                match look(&vs[i]) {
                    Parts::Uint(n) => {
                        if n >= 256 {
                            assert(!is_octet(x));
                            return None;
                        }
                        out.push(n as u8);
                    },
                    _ => {
                        assert(!is_octet(x));
                        return None;
                    },
                }
            }
            assert(out@ =~= items.map_values(|x: Item| x->Uint_0 as u8));
            Some(out)
        },
        _ => None,
    }
}

pub(crate) fn octets32(v: &Value) -> (r: Option<[u8; 32]>)
    ensures
        match r {
            Some(b) => octets_of(seen(*v)) == Some(b@),
            None => octets_of(seen(*v)) is None || octets_of(seen(*v))->Some_0.len() != 32,
        },
{
    match octets(v) {
        Some(b) => {
            if b.len() != 32 {
                return None;
            }
            let a = array32(&b, 0);
            assert(a@ =~= b@);
            Some(a)
        },
        None => None,
    }
}

// ---------------------------------------------------------------------------
// Records
// ---------------------------------------------------------------------------

/// Whether an item spells a name: in a text, or in the bytes of that text.
pub open spec fn spells(item: Item, name: Seq<char>) -> bool {
    item == Item::Text(name) || item == Item::Bytes(vstd::utf8::encode_utf8(name))
}

/// Whether an item can spell a name.
pub open spec fn is_name(item: Item) -> bool {
    item is Text || item is Bytes
}

pub open spec fn named_at(es: Seq<(Item, Item)>, name: Seq<char>, i: int) -> bool {
    0 <= i < es.len() && spells(es[i].0, name)
}

/// The one entry of that name, if there is exactly one.
pub open spec fn field_of(es: Seq<(Item, Item)>, name: Seq<char>) -> Option<Item> {
    if exists|i: int|
        #[trigger] named_at(es, name, i) && forall|j: int|
            #[trigger] named_at(es, name, j) ==> j == i {
        Some(es[choose|i: int| #[trigger] named_at(es, name, i)].1)
    } else {
        None
    }
}

/// Whether every entry has a name.
pub open spec fn all_named(es: Seq<(Item, Item)>) -> bool {
    forall|i: int| 0 <= i < es.len() ==> is_name((#[trigger] es[i]).0)
}

/// An entry whose name no other entry has is the entry of that name.
pub proof fn field_found(es: Seq<(Item, Item)>, name: Seq<char>, i: int)
    requires
        named_at(es, name, i),
        forall|j: int| 0 <= j < es.len() && j != i ==> !spells((#[trigger] es[j]).0, name),
    ensures
        field_of(es, name) == Some(es[i].1),
{
    assert(forall|j: int| #[trigger] named_at(es, name, j) ==> j == i);
}

/// A part of the content of a choice, which either names its parts or lists them in their
/// order.
pub open spec fn part_of(content: Item, name: Seq<char>, at: int, count: nat) -> Option<Item> {
    match content {
        Item::Pairs(es) => if all_named(es) {
            field_of(es, name)
        } else {
            None
        },
        Item::Array(items) => if items.len() == count {
            Some(items[at])
        } else {
            None
        },
        _ => None,
    }
}

/// The entries of a record being written.
pub(crate) struct Fields {
    pub(crate) entries: Vec<(Value, Value)>,
}

impl Fields {
    pub(crate) closed spec fn items(self) -> Seq<(Item, Item)> {
        entries_of(self.entries@)
    }

    pub(crate) fn new() -> (r: Self)
        ensures
            r.items() == Seq::<(Item, Item)>::empty(),
    {
        let r = Fields { entries: Vec::new() };
        assert(r.items() =~= Seq::<(Item, Item)>::empty());
        r
    }

    pub(crate) fn with(self, name: &str, v: Value) -> (r: Self)
        ensures
            r.items() == self.items().push((Item::Text(name@), item_of(v))),
    {
        let mut entries = self.entries;
        entries.push((text(name.to_owned()), v));
        let r = Fields { entries };
        assert(r.items() =~= self.items().push((Item::Text(name@), item_of(v))));
        r
    }

    pub(crate) fn with_entry(self, k: Value, v: Value) -> (r: Self)
        ensures
            r.items() == self.items().push((item_of(k), item_of(v))),
    {
        let mut entries = self.entries;
        entries.push((k, v));
        let r = Fields { entries };
        assert(r.items() =~= self.items().push((item_of(k), item_of(v))));
        r
    }

    pub(crate) fn done(self) -> (r: Value)
        ensures
            item_of(r) == Item::Pairs(self.items()),
    {
        map_item(self.entries)
    }
}

/// Whether a value spells a name.
pub(crate) fn is_named(v: &Value, name: &str) -> (r: bool)
    ensures
        r == spells(seen(*v), name@),
{
    match look(v) {
        Parts::Text(s) => same_text(s, name),
        Parts::Bytes(b) => same_bytes(b, name.as_bytes()),
        _ => false,
    }
}

/// Whether a value can spell a name.
fn can_be_name(v: &Value) -> (r: bool)
    ensures
        r == is_name(seen(*v)),
{
    match look(v) {
        Parts::Text(_) => true,
        Parts::Bytes(_) => true,
        _ => false,
    }
}

/// The entries of a map all of whose entries have names.
pub(crate) fn named_entries<'a>(v: &'a Value) -> (r: Option<&'a Vec<(Value, Value)>>)
    ensures
        match r {
            Some(es) => seen(*v) == Item::Pairs(seen_entries(es@)) && all_named(seen_entries(es@)),
            None => !(seen(*v) is Pairs) || !all_named(seen(*v)->Pairs_0),
        },
{
    match look(v) {
        Parts::Pairs(es) => {
            let ghost items = seen_entries(es@);
            for i in 0..es.len()
                invariant
                    items == seen_entries(es@),
                    seen(*v) == Item::Pairs(items),
                    forall|j: int| 0 <= j < i ==> is_name((#[trigger] items[j]).0),
            {
                assert(items[i as int].0 == seen(es@[i as int].0));
                if !can_be_name(&es[i].0) {
                    return None;
                }
            }
            Some(es)
        },
        _ => None,
    }
}

/// The one entry of that name, if there is exactly one.
pub(crate) fn field<'a>(es: &'a Vec<(Value, Value)>, name: &str) -> (r: Option<&'a Value>)
    ensures
        match r {
            Some(v) => field_of(seen_entries(es@), name@) == Some(seen(*v)),
            None => field_of(seen_entries(es@), name@) is None,
        },
{
    let ghost items = seen_entries(es@);
    let mut found: Option<usize> = None;
    for i in 0..es.len()
        invariant
            items == seen_entries(es@),
            match found {
                Some(k) => k < i && named_at(items, name@, k as int) && forall|j: int|
                    0 <= j < i && j != k ==> !spells((#[trigger] items[j]).0, name@),
                None => forall|j: int| 0 <= j < i ==> !spells((#[trigger] items[j]).0, name@),
            },
    {
        assert(items[i as int].0 == seen(es@[i as int].0));
        if is_named(&es[i].0, name) {
            assert(named_at(items, name@, i as int));
            if found.is_some() {
                return None;
            }
            found = Some(i);
        }
    }
    match found {
        Some(k) => {
            proof {
                field_found(items, name@, k as int);
            }
            Some(&es[k].1)
        },
        None => None,
    }
}

/// The part of a choice that has that name, or that place in the list of its parts.
pub(crate) fn part<'a>(content: &'a Value, name: &str, at: usize, count: usize) -> (r: Option<
    &'a Value,
>)
    requires
        at < count,
    ensures
        match r {
            Some(v) => part_of(seen(*content), name@, at as int, count as nat) == Some(seen(*v)),
            None => part_of(seen(*content), name@, at as int, count as nat) is None,
        },
{
    match as_array(content) {
        Some(vs) => if vs.len() == count {
            assert(seen_items(vs@)[at as int] == seen(vs@[at as int]));
            Some(&vs[at])
        } else {
            None
        },
        None => match named_entries(content) {
            Some(es) => field(es, name),
            None => None,
        },
    }
}

pub(crate) fn as_uint(v: &Value) -> (r: Option<u64>)
    ensures
        match r {
            Some(n) => seen(*v) == Item::Uint(n),
            None => !(seen(*v) is Uint),
        },
{
    match look(v) {
        Parts::Uint(n) => Some(n),
        _ => None,
    }
}

/// An integer that fits in 32 bits.
pub open spec fn u32_of(item: Item) -> Option<u32> {
    match item {
        Item::Uint(n) => if n <= u32::MAX {
            Some(n as u32)
        } else {
            None
        },
        _ => None,
    }
}

pub(crate) fn as_u32(v: &Value) -> (r: Option<u32>)
    ensures
        r == u32_of(seen(*v)),
{
    match look(v) {
        Parts::Uint(n) => if n <= u32::MAX as u64 {
            Some(n as u32)
        } else {
            None
        },
        _ => None,
    }
}

pub(crate) fn as_text<'a>(v: &'a Value) -> (r: Option<&'a String>)
    ensures
        match r {
            Some(s) => seen(*v) == Item::Text(s@),
            None => !(seen(*v) is Text),
        },
{
    match look(v) {
        Parts::Text(s) => Some(s),
        _ => None,
    }
}

pub(crate) fn as_bytes<'a>(v: &'a Value) -> (r: Option<&'a Vec<u8>>)
    ensures
        match r {
            Some(b) => seen(*v) == Item::Bytes(b@),
            None => !(seen(*v) is Bytes),
        },
{
    match look(v) {
        Parts::Bytes(b) => Some(b),
        _ => None,
    }
}

pub(crate) fn is_null(v: &Value) -> (r: bool)
    ensures
        r == (seen(*v) is Null),
{
    match look(v) {
        Parts::Null => true,
        _ => false,
    }
}

/// Whether no entry has that name.
pub open spec fn missing(es: Seq<(Item, Item)>, name: Seq<char>) -> bool {
    forall|i: int| 0 <= i < es.len() ==> !spells((#[trigger] es[i]).0, name)
}

pub(crate) fn is_missing(es: &Vec<(Value, Value)>, name: &str) -> (r: bool)
    ensures
        r == missing(seen_entries(es@), name@),
{
    let ghost items = seen_entries(es@);
    for i in 0..es.len()
        invariant
            items == seen_entries(es@),
            forall|j: int| 0 <= j < i ==> !spells((#[trigger] items[j]).0, name@),
    {
        assert(items[i as int].0 == seen(es@[i as int].0));
        if is_named(&es[i].0, name) {
            return false;
        }
    }
    true
}

pub(crate) fn as_array<'a>(v: &'a Value) -> (r: Option<&'a Vec<Value>>)
    ensures
        match r {
            Some(vs) => seen(*v) == Item::Array(seen_items(vs@)),
            None => !(seen(*v) is Array),
        },
{
    match look(v) {
        Parts::Array(vs) => Some(vs),
        _ => None,
    }
}

pub(crate) fn as_pairs<'a>(v: &'a Value) -> (r: Option<&'a Vec<(Value, Value)>>)
    ensures
        match r {
            Some(es) => seen(*v) == Item::Pairs(seen_entries(es@)),
            None => !(seen(*v) is Pairs),
        },
{
    match look(v) {
        Parts::Pairs(es) => Some(es),
        _ => None,
    }
}

} // verus!
