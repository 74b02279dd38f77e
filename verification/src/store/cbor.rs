//! Records in CBOR: a map from field names to plain values, or one plain value.
//!
//! A record is read as its shape asks: fields that the shape does not know are skipped, and a
//! field that occurs twice is refused. Tags are passed over, and a list of numbers may stand for
//! a byte string; a map in the place of a field's value is refused.

use vstd::prelude::*;
use vstd::utf8::encode_utf8;
use ciborium::Value;
use crate::bytes::{bytes_equal, copy_bytes};
use super::crypto::MAX_PLAINTEXT_LEN;

verus! {

/// A plain value.
pub enum Scalar {
    Null,
    Bool(bool),
    Uint(u64),
    Bytes(Vec<u8>),
    Text(String),
    /// Anything else.
    Other,
}

pub enum ScalarView {
    Null,
    Bool(bool),
    Uint(u64),
    Bytes(Seq<u8>),
    Text(Seq<char>),
    Other,
}

impl View for Scalar {
    type V = ScalarView;

    open spec fn view(&self) -> ScalarView {
        match self {
            Scalar::Null => ScalarView::Null,
            Scalar::Bool(b) => ScalarView::Bool(*b),
            Scalar::Uint(n) => ScalarView::Uint(*n),
            Scalar::Bytes(b) => ScalarView::Bytes(b@),
            Scalar::Text(t) => ScalarView::Text(t@),
            Scalar::Other => ScalarView::Other,
        }
    }
}

/// A record.
pub enum Item {
    Fields(Vec<(Scalar, Scalar)>),
    Single(Scalar),
}

pub enum ItemView {
    Fields(Seq<(ScalarView, ScalarView)>),
    Single(ScalarView),
}

pub open spec fn pairs_view(pairs: Seq<(Scalar, Scalar)>) -> Seq<(ScalarView, ScalarView)> {
    pairs.map_values(|p: (Scalar, Scalar)| (p.0@, p.1@))
}

impl View for Item {
    type V = ItemView;

    open spec fn view(&self) -> ItemView {
        match self {
            Item::Fields(pairs) => ItemView::Fields(pairs_view(pairs@)),
            Item::Single(value) => ItemView::Single(value@),
        }
    }
}

/// Whether the record is made of plain values alone, under field names.
pub open spec fn plain(item: ItemView) -> bool {
    match item {
        ItemView::Fields(pairs) => forall|i: int|
            0 <= i < pairs.len() ==> ((#[trigger] pairs[i]).0 is Text || pairs[i].0 is Bytes)
                && !(pairs[i].1 is Other),
        ItemView::Single(value) => !(value is Other),
    }
}

// Whole CBOR items.

/// A CBOR item with everything in it.
pub enum TreeView {
    Null,
    Bool(bool),
    Integer(i128),
    Bytes(Seq<u8>),
    Text(Seq<char>),
    Tag(u64, Box<TreeView>),
    Array(Seq<TreeView>),
    Entries(Seq<(TreeView, TreeView)>),
    Float,
    Other,
}

/// A CBOR item that is not looked into.
#[verifier::external_type_specification]
#[verifier::external_body]
pub struct ExValue(ciborium::Value);

/// What a `ciborium::Value` holds.
pub uninterp spec fn value_tree(value: ciborium::Value) -> TreeView;

/// The CBOR encoding of a record.
pub uninterp spec fn cbor_bytes(item: ItemView) -> Seq<u8>;

/// The item that some bytes start with, if they start with one.
pub uninterp spec fn cbor_tree(bytes: Seq<u8>) -> Option<TreeView>;

/// A plain value as an item.
pub open spec fn scalar_tree(scalar: ScalarView) -> TreeView {
    match scalar {
        ScalarView::Null => TreeView::Null,
        ScalarView::Bool(b) => TreeView::Bool(b),
        ScalarView::Uint(n) => TreeView::Integer(n as i128),
        ScalarView::Bytes(b) => TreeView::Bytes(b),
        ScalarView::Text(t) => TreeView::Text(t),
        ScalarView::Other => TreeView::Other,
    }
}

/// A record as an item.
pub open spec fn item_tree(item: ItemView) -> TreeView {
    match item {
        ItemView::Fields(pairs) => TreeView::Entries(
            pairs.map_values(
                |p: (ScalarView, ScalarView)| (scalar_tree(p.0), scalar_tree(p.1)),
            ),
        ),
        ItemView::Single(value) => scalar_tree(value),
    }
}

/// The most bytes that a plain value takes: nine for its header, and its contents.
pub open spec fn scalar_size(scalar: ScalarView) -> nat {
    match scalar {
        ScalarView::Bytes(b) => 9 + b.len(),
        ScalarView::Text(t) => 9 + encode_utf8(t).len(),
        _ => 9,
    }
}

/// The most bytes that the fields take.
pub open spec fn fields_size(pairs: Seq<(ScalarView, ScalarView)>) -> nat
    decreases pairs.len(),
{
    if pairs.len() == 0 {
        0
    } else {
        fields_size(pairs.drop_last()) + scalar_size(pairs.last().0) + scalar_size(pairs.last().1)
    }
}

/// The most bytes that a record takes.
pub open spec fn item_size(item: ItemView) -> nat {
    match item {
        ItemView::Fields(pairs) => 9 + fields_size(pairs),
        ItemView::Single(value) => scalar_size(value),
    }
}

/// `ciborium::into_writer` on a `ciborium::Value`. Claimed of it: the bytes are a function of
/// the record, called `cbor_bytes`; `ciborium::from_reader` reads the record back from them; and
/// each header takes nine bytes at most.
#[verifier::external_body]
fn write_item(item: &Item) -> (bytes: Vec<u8>)
    requires
        plain(item@),
    ensures
        bytes@ == cbor_bytes(item@),
        cbor_tree(bytes@) == Some(item_tree(item@)),
        bytes@.len() <= item_size(item@),
{
    let scalar = |s: &Scalar| match s {
        Scalar::Null | Scalar::Other => Value::Null,
        Scalar::Bool(b) => Value::Bool(*b),
        Scalar::Uint(n) => Value::Integer((*n).into()),
        Scalar::Bytes(b) => Value::Bytes(b.clone()),
        Scalar::Text(t) => Value::Text(t.clone()),
    };
    let value = match item {
        Item::Fields(m) => Value::Map(m.iter().map(|(k, v)| (scalar(k), scalar(v))).collect()),
        Item::Single(s) => scalar(s),
    };
    let mut bytes = Vec::new();
    ciborium::into_writer(&value, &mut bytes).expect("writing to memory cannot fail");
    bytes
}

/// `ciborium::from_reader` to a `ciborium::Value`. Claimed of it: what is read is a function of
/// the bytes, called `cbor_tree`.
#[verifier::external_body]
fn read_value(bytes: &[u8]) -> (value: Option<ciborium::Value>)
    ensures
        match value {
            Some(v) => cbor_tree(bytes@) == Some(value_tree(v)),
            None => cbor_tree(bytes@) is None,
        },
{
    ciborium::from_reader(bytes).ok()
}

/// The outermost layer of an item.
enum Layer {
    Null,
    Bool(bool),
    Integer(i128),
    Bytes(Vec<u8>),
    Text(String),
    Tag(u64, ciborium::Value),
    Array(Vec<ciborium::Value>),
    Entries(Vec<(ciborium::Value, ciborium::Value)>),
    Float,
    Other,
}

/// What the values of a list hold.
pub open spec fn value_trees(values: Seq<ciborium::Value>) -> Seq<TreeView> {
    values.map_values(|v: ciborium::Value| value_tree(v))
}

/// What the entries of a list hold.
pub open spec fn entry_trees(entries: Seq<(ciborium::Value, ciborium::Value)>) -> Seq<
    (TreeView, TreeView),
> {
    entries.map_values(
        |e: (ciborium::Value, ciborium::Value)| (value_tree(e.0), value_tree(e.1)),
    )
}

impl Layer {
    spec fn tree(&self) -> TreeView {
        match self {
            Layer::Null => TreeView::Null,
            Layer::Bool(b) => TreeView::Bool(*b),
            Layer::Integer(n) => TreeView::Integer(*n),
            Layer::Bytes(b) => TreeView::Bytes(b@),
            Layer::Text(t) => TreeView::Text(t@),
            Layer::Tag(tag, value) => TreeView::Tag(*tag, Box::new(value_tree(*value))),
            Layer::Array(values) => TreeView::Array(value_trees(values@)),
            Layer::Entries(entries) => TreeView::Entries(entry_trees(entries@)),
            Layer::Float => TreeView::Float,
            Layer::Other => TreeView::Other,
        }
    }
}

/// The variants of `ciborium::Value`, one for one. Claimed of it: what the value holds stays
/// the same.
#[verifier::external_body]
fn peel(value: ciborium::Value) -> (layer: Layer)
    ensures
        layer.tree() == value_tree(value),
{
    match value {
        Value::Null => Layer::Null,
        Value::Bool(b) => Layer::Bool(b),
        Value::Integer(n) => Layer::Integer(n.into()),
        Value::Bytes(b) => Layer::Bytes(b),
        Value::Text(t) => Layer::Text(t),
        Value::Tag(tag, v) => Layer::Tag(tag, *v),
        Value::Array(a) => Layer::Array(a),
        Value::Map(m) => Layer::Entries(m),
        Value::Float(_) => Layer::Float,
        _ => Layer::Other,
    }
}

// Items as records.

/// The item inside all tags.
pub open spec fn untagged(tree: TreeView) -> TreeView
    decreases tree,
{
    match tree {
        TreeView::Tag(_, inner) => untagged(*inner),
        _ => tree,
    }
}

/// The byte that an item stands for, if it is a number of that size.
pub open spec fn tree_byte(tree: TreeView) -> Option<u8> {
    match untagged(tree) {
        TreeView::Integer(n) if 0 <= n <= 255 => Some(n as u8),
        _ => None,
    }
}

/// The byte string that a list of numbers stands for.
pub open spec fn tree_bytes(items: Seq<TreeView>) -> Option<Seq<u8>> {
    if forall|i: int| 0 <= i < items.len() ==> tree_byte(#[trigger] items[i]) is Some {
        Some(Seq::new(items.len(), |i: int| tree_byte(items[i])->0))
    } else {
        None
    }
}

/// The plain value that an item without a tag stands for, where it is not null.
pub open spec fn untagged_scalar(tree: TreeView) -> ScalarView {
    match tree {
        TreeView::Bool(b) => ScalarView::Bool(b),
        TreeView::Integer(n) if 0 <= n <= u64::MAX => ScalarView::Uint(n as u64),
        TreeView::Bytes(b) => ScalarView::Bytes(b),
        TreeView::Text(t) => ScalarView::Text(t),
        TreeView::Array(items) => match tree_bytes(items) {
            Some(b) => ScalarView::Bytes(b),
            None => ScalarView::Other,
        },
        _ => ScalarView::Other,
    }
}

/// The plain value that an item stands for. Tags do not matter, except that a tagged null is
/// none; a list of numbers may stand for a byte string.
pub open spec fn tree_scalar(tree: TreeView) -> ScalarView {
    if tree is Null {
        ScalarView::Null
    } else {
        untagged_scalar(untagged(tree))
    }
}

/// The field name that an item stands for.
pub open spec fn tree_name(tree: TreeView) -> ScalarView {
    match untagged(tree) {
        TreeView::Bytes(b) => ScalarView::Bytes(b),
        TreeView::Text(t) => ScalarView::Text(t),
        _ => ScalarView::Other,
    }
}

/// The fields that the entries of an item stand for.
pub open spec fn tree_fields(entries: Seq<(TreeView, TreeView)>) -> Seq<(ScalarView, ScalarView)> {
    entries.map_values(|e: (TreeView, TreeView)| (tree_name(e.0), tree_scalar(e.1)))
}

/// The record that an item stands for.
pub open spec fn tree_item(tree: TreeView) -> ItemView {
    match untagged(tree) {
        TreeView::Entries(entries) => ItemView::Fields(tree_fields(entries)),
        _ => ItemView::Single(tree_scalar(tree)),
    }
}

/// The record that some bytes start with, if they start with a CBOR item.
pub open spec fn cbor_item(bytes: Seq<u8>) -> Option<ItemView> {
    match cbor_tree(bytes) {
        Some(tree) => Some(tree_item(tree)),
        None => None,
    }
}

/// A record of plain values is the record that its item stands for.
pub proof fn law_item_round_trips(item: ItemView)
    requires
        plain(item),
    ensures
        tree_item(item_tree(item)) == item,
{
    match item {
        ItemView::Fields(pairs) => {
            let entries = item_tree(item)->Entries_0;
            assert(tree_fields(entries) =~= pairs);
        },
        ItemView::Single(_) => {},
    }
}

/// The encoding of a record.
pub(crate) fn encode_item(item: &Item) -> (bytes: Vec<u8>)
    requires
        plain(item@),
    ensures
        bytes@ == cbor_bytes(item@),
        cbor_item(bytes@) == Some(item@),
        bytes@.len() <= item_size(item@),
{
    proof {
        law_item_round_trips(item@);
    }
    write_item(item)
}

/// The outermost layer inside all tags.
fn peel_tags(value: ciborium::Value) -> (layer: Layer)
    ensures
        layer.tree() == untagged(value_tree(value)),
        !(layer is Tag),
    decreases value_tree(value),
{
    match peel(value) {
        Layer::Tag(_, inner) => peel_tags(inner),
        other => other,
    }
}

fn value_bytes(list: Vec<ciborium::Value>) -> (bytes: Option<Vec<u8>>)
    ensures
        match bytes {
            Some(b) => tree_bytes(value_trees(list@)) == Some(b@),
            None => tree_bytes(value_trees(list@)) is None,
        },
{
    let ghost trees = value_trees(list@);
    let mut values: Vec<ciborium::Value> = list;
    let mut reversed: Vec<u8> = Vec::new();
    while values.len() > 0
        invariant
            trees == value_trees(list@),
            values@.len() + reversed@.len() == trees.len(),
            value_trees(values@) == trees.take(values@.len() as int),
            forall|i: int|
                values@.len() <= i < trees.len() ==> tree_byte(#[trigger] trees[i]) == Some(
                    reversed@[trees.len() - 1 - i],
                ),
        decreases values@.len(),
    {
        let ghost before = values@;
        if let Some(value) = values.pop() {
            proof {
                assert(value_trees(before)[before.len() - 1] == value_tree(value));
                assert(trees[before.len() - 1] == value_tree(value));
                assert(value_trees(values@) =~= trees.take(values@.len() as int));
            }
            match peel_tags(value) {
                Layer::Integer(n) => {
                    if 0 <= n && n <= 255 {
                        reversed.push(n as u8);
                    } else {
                        assert(tree_byte(trees[before.len() - 1]) is None);
                        return None;
                    }
                },
                _ => {
                    assert(tree_byte(trees[before.len() - 1]) is None);
                    return None;
                },
            }
        }
    }
    let mut bytes: Vec<u8> = Vec::new();
    let ghost all = reversed@;
    while reversed.len() > 0
        invariant
            bytes@.len() + reversed@.len() == trees.len(),
            all.len() == trees.len(),
            reversed@ == all.take(reversed@.len() as int),
            forall|i: int|
                0 <= i < trees.len() ==> tree_byte(#[trigger] trees[i]) == Some(
                    all[trees.len() - 1 - i],
                ),
            forall|i: int| 0 <= i < bytes@.len() ==> bytes@[i] == all[trees.len() - 1 - i],
        decreases reversed@.len(),
    {
        if let Some(byte) = reversed.pop() {
            bytes.push(byte);
        }
    }
    proof {
        assert forall|i: int| 0 <= i < trees.len() implies tree_byte(#[trigger] trees[i]) is Some by {}
        assert(tree_bytes(trees)->0 =~= bytes@);
    }
    Some(bytes)
}

fn layer_scalar(layer: Layer) -> (scalar: Scalar)
    ensures
        scalar@ == untagged_scalar(layer.tree()),
{
    match layer {
        Layer::Bool(b) => Scalar::Bool(b),
        Layer::Integer(n) => if 0 <= n && n <= u64::MAX as i128 {
            Scalar::Uint(n as u64)
        } else {
            Scalar::Other
        },
        Layer::Bytes(b) => Scalar::Bytes(b),
        Layer::Text(t) => Scalar::Text(t),
        Layer::Array(values) => match value_bytes(values) {
            Some(b) => Scalar::Bytes(b),
            None => Scalar::Other,
        },
        _ => Scalar::Other,
    }
}

fn value_scalar(value: ciborium::Value) -> (scalar: Scalar)
    ensures
        scalar@ == tree_scalar(value_tree(value)),
{
    match peel(value) {
        Layer::Null => Scalar::Null,
        Layer::Tag(_, inner) => layer_scalar(peel_tags(inner)),
        other => layer_scalar(other),
    }
}

fn value_name(value: ciborium::Value) -> (name: Scalar)
    ensures
        name@ == tree_name(value_tree(value)),
{
    match peel_tags(value) {
        Layer::Bytes(b) => Scalar::Bytes(b),
        Layer::Text(t) => Scalar::Text(t),
        _ => Scalar::Other,
    }
}

fn entry_fields(entries: Vec<(ciborium::Value, ciborium::Value)>) -> (fields: Vec<(Scalar, Scalar)>)
    ensures
        pairs_view(fields@) == tree_fields(entry_trees(entries@)),
{
    let ghost trees = entry_trees(entries@);
    let ghost wanted = tree_fields(trees);
    let mut entries: Vec<(ciborium::Value, ciborium::Value)> = entries;
    let mut reversed: Vec<(Scalar, Scalar)> = Vec::new();
    while entries.len() > 0
        invariant
            entries@.len() + reversed@.len() == trees.len(),
            wanted == tree_fields(trees),
            entry_trees(entries@) == trees.take(entries@.len() as int),
            forall|j: int|
                0 <= j < reversed@.len() ==> ((#[trigger] reversed@[j]).0@, reversed@[j].1@)
                    == wanted[trees.len() - 1 - j],
        decreases entries@.len(),
    {
        let ghost before = entries@;
        if let Some((name, value)) = entries.pop() {
            proof {
                assert(entry_trees(before)[before.len() - 1] == (
                    value_tree(name),
                    value_tree(value),
                ));
                assert(trees[before.len() - 1] == (value_tree(name), value_tree(value)));
                assert(entry_trees(entries@) =~= trees.take(entries@.len() as int));
            }
            reversed.push((value_name(name), value_scalar(value)));
        }
    }
    let mut fields: Vec<(Scalar, Scalar)> = Vec::new();
    let ghost all = reversed@;
    while reversed.len() > 0
        invariant
            fields@.len() + reversed@.len() == trees.len(),
            all.len() == trees.len(),
            wanted.len() == trees.len(),
            reversed@ == all.take(reversed@.len() as int),
            forall|j: int|
                0 <= j < all.len() ==> ((#[trigger] all[j]).0@, all[j].1@) == wanted[trees.len() - 1
                    - j],
            forall|i: int|
                0 <= i < fields@.len() ==> ((#[trigger] fields@[i]).0@, fields@[i].1@) == wanted[i],
        decreases reversed@.len(),
    {
        if let Some(field) = reversed.pop() {
            assert(field == all[reversed@.len() as int]);
            fields.push(field);
        }
    }
    assert(pairs_view(fields@) =~= wanted);
    fields
}

/// The record that some bytes start with, if they start with a CBOR item.
pub(crate) fn decode_item(bytes: &[u8]) -> (item: Option<Item>)
    ensures
        match item {
            Some(i) => cbor_item(bytes@) == Some(i@),
            None => cbor_item(bytes@) is None,
        },
{
    match read_value(bytes) {
        None => None,
        Some(value) => match peel(value) {
            Layer::Null => Some(Item::Single(Scalar::Null)),
            Layer::Entries(entries) => Some(Item::Fields(entry_fields(entries))),
            Layer::Tag(_, inner) => match peel_tags(inner) {
                Layer::Entries(entries) => Some(Item::Fields(entry_fields(entries))),
                other => Some(Item::Single(layer_scalar(other))),
            },
            other => Some(Item::Single(layer_scalar(other))),
        },
    }
}

/// The longest field name that is read.
pub const MAX_FIELD_NAME_LEN: usize = 4096;

/// The bytes of a field name, where a key can be one.
pub open spec fn name_bytes(key: ScalarView) -> Option<Seq<u8>> {
    match key {
        ScalarView::Text(t) => Some(encode_utf8(t)),
        ScalarView::Bytes(b) => Some(b),
        _ => None,
    }
}

/// Whether every key can be a field name.
pub open spec fn names_ok(pairs: Seq<(ScalarView, ScalarView)>) -> bool {
    forall|i: int|
        0 <= i < pairs.len() ==> (name_bytes((#[trigger] pairs[i]).0) matches Some(n) && n.len()
            <= MAX_FIELD_NAME_LEN)
}

/// What a record holds under a field name.
pub enum FieldView {
    Absent,
    One(ScalarView),
    Repeated,
}

/// What a record holds under a field name.
pub open spec fn field(pairs: Seq<(ScalarView, ScalarView)>, name: Seq<char>) -> FieldView
    decreases pairs.len(),
{
    if pairs.len() == 0 {
        FieldView::Absent
    } else if name_bytes(pairs.last().0) == Some(encode_utf8(name)) {
        match field(pairs.drop_last(), name) {
            FieldView::Absent => FieldView::One(pairs.last().1),
            _ => FieldView::Repeated,
        }
    } else {
        field(pairs.drop_last(), name)
    }
}

/// What a record holds under a field name.
pub enum Field<'a> {
    Absent,
    One(&'a Scalar),
    Repeated,
}

impl<'a> View for Field<'a> {
    type V = FieldView;

    open spec fn view(&self) -> FieldView {
        match self {
            Field::Absent => FieldView::Absent,
            Field::One(value) => FieldView::One(value@),
            Field::Repeated => FieldView::Repeated,
        }
    }
}

/// Whether a key is a field name.
pub fn is_name(key: &Scalar, name: &str) -> (is: bool)
    ensures
        is == (name_bytes(key@) == Some(encode_utf8(name@))),
{
    match key {
        Scalar::Text(t) => bytes_equal(t.as_str().as_bytes(), name.as_bytes()),
        Scalar::Bytes(b) => bytes_equal(b.as_slice(), name.as_bytes()),
        _ => false,
    }
}

/// What a record holds under a field name.
pub fn find_field<'a>(pairs: &'a Vec<(Scalar, Scalar)>, name: &str) -> (found: Field<'a>)
    ensures
        found@ == field(pairs_view(pairs@), name@),
{
    let ghost view = pairs_view(pairs@);
    let mut found: Field<'a> = Field::Absent;
    let mut i: usize = 0;
    while i < pairs.len()
        invariant
            i <= pairs@.len(),
            view == pairs_view(pairs@),
            found@ == field(view.take(i as int), name@),
        decreases pairs@.len() - i,
    {
        proof {
            assert(view.take(i + 1).drop_last() =~= view.take(i as int));
            assert(view.take(i + 1).last() == (pairs@[i as int].0@, pairs@[i as int].1@));
        }
        if is_name(&pairs[i].0, name) {
            found = match found {
                Field::Absent => Field::One(&pairs[i].1),
                _ => Field::Repeated,
            };
        }
        i = i + 1;
    }
    assert(view.take(i as int) =~= view);
    found
}

/// Whether every key can be a field name.
pub fn check_names(pairs: &Vec<(Scalar, Scalar)>) -> (ok: bool)
    ensures
        ok == names_ok(pairs_view(pairs@)),
{
    let ghost view = pairs_view(pairs@);
    let mut i: usize = 0;
    while i < pairs.len()
        invariant
            i <= pairs@.len(),
            view == pairs_view(pairs@),
            forall|j: int|
                0 <= j < i ==> (name_bytes((#[trigger] view[j]).0) matches Some(n) && n.len()
                    <= MAX_FIELD_NAME_LEN),
        decreases pairs@.len() - i,
    {
        assert(view[i as int] == (pairs@[i as int].0@, pairs@[i as int].1@));
        let ok: bool = match &pairs[i].0 {
            Scalar::Text(t) => t.as_str().as_bytes().len() <= MAX_FIELD_NAME_LEN,
            Scalar::Bytes(b) => b.len() <= MAX_FIELD_NAME_LEN,
            _ => false,
        };
        if !ok {
            return false;
        }
        i = i + 1;
    }
    true
}

// What a field is taken as. The outer `None` is a refusal.

pub open spec fn as_bytes(f: FieldView) -> Option<Seq<u8>> {
    match f {
        FieldView::One(ScalarView::Bytes(b)) => Some(b),
        _ => None,
    }
}

pub open spec fn as_text(f: FieldView) -> Option<Seq<char>> {
    match f {
        FieldView::One(ScalarView::Text(t)) => Some(t),
        _ => None,
    }
}

pub open spec fn as_bool(f: FieldView) -> Option<bool> {
    match f {
        FieldView::One(ScalarView::Bool(b)) => Some(b),
        _ => None,
    }
}

/// A number up to `max`.
pub open spec fn as_uint(f: FieldView, max: u64) -> Option<u64> {
    match f {
        FieldView::One(ScalarView::Uint(n)) if n <= max => Some(n),
        _ => None,
    }
}

/// The value, or nothing where the field is null, or missing although it may be.
pub open spec fn as_optional<T>(f: FieldView, may_be_missing: bool, value: Option<T>) -> Option<Option<T>> {
    match f {
        FieldView::One(ScalarView::Null) => Some(None),
        FieldView::Absent => if may_be_missing {
            Some(None)
        } else {
            None
        },
        _ => match value {
            Some(v) => Some(Some(v)),
            None => None,
        },
    }
}

pub fn take_bytes(f: &Field) -> (value: Option<Vec<u8>>)
    ensures
        value is Some <==> as_bytes(f@) is Some,
        value matches Some(v) ==> as_bytes(f@) == Some(v@),
{
    match f {
        Field::One(Scalar::Bytes(b)) => Some(copy_bytes(b.as_slice())),
        _ => None,
    }
}

pub fn take_text(f: &Field) -> (value: Option<String>)
    ensures
        value is Some <==> as_text(f@) is Some,
        value matches Some(v) ==> as_text(f@) == Some(v@),
{
    match f {
        Field::One(Scalar::Text(t)) => Some(t.clone()),
        _ => None,
    }
}

pub fn take_bool(f: &Field) -> (value: Option<bool>)
    ensures
        value == as_bool(f@),
{
    match f {
        Field::One(Scalar::Bool(b)) => Some(*b),
        _ => None,
    }
}

pub fn take_uint(f: &Field, max: u64) -> (value: Option<u64>)
    ensures
        value == as_uint(f@, max),
        value matches Some(v) ==> v <= max,
{
    match f {
        Field::One(Scalar::Uint(n)) => if *n <= max {
            Some(*n)
        } else {
            None
        },
        _ => None,
    }
}

/// Whether the field is taken as nothing.
pub fn is_nothing(f: &Field, may_be_missing: bool) -> (nothing: bool)
    ensures
        nothing == (f@ == FieldView::One(ScalarView::Null) || (f@ is Absent && may_be_missing)),
{
    match f {
        Field::One(Scalar::Null) => true,
        Field::Absent => may_be_missing,
        _ => false,
    }
}

// Records that pair distinct names with values.

/// The bytes of an optional byte string.
pub open spec fn optional_bytes(bytes: Option<Vec<u8>>) -> Option<Seq<u8>> {
    match bytes {
        Some(b) => Some(b@),
        None => None,
    }
}

pub open spec fn optional_uint(n: Option<u64>) -> ScalarView {
    match n {
        Some(n) => ScalarView::Uint(n),
        None => ScalarView::Null,
    }
}

pub open spec fn optional_bytes_value(bytes: Option<Seq<u8>>) -> ScalarView {
    match bytes {
        Some(b) => ScalarView::Bytes(b),
        None => ScalarView::Null,
    }
}

/// The record that pairs names with values.
pub open spec fn record_of(names: Seq<Seq<char>>, values: Seq<ScalarView>) -> ItemView {
    ItemView::Fields(
        Seq::new(names.len(), |i: int| (ScalarView::Text(names[i]), values[i])),
    )
}

/// No name occurs twice.
pub open spec fn distinct(names: Seq<Seq<char>>) -> bool {
    forall|i: int, j: int| 0 <= i < j < names.len() ==> #[trigger] names[i] != #[trigger] names[j]
}

/// A record of distinct names holds each value under its name.
pub proof fn lemma_record_fields(names: Seq<Seq<char>>, values: Seq<ScalarView>, i: int)
    requires
        distinct(names),
        names.len() == values.len(),
        0 <= i < names.len(),
    ensures
        record_of(names, values) matches ItemView::Fields(pairs) && field(pairs, names[i])
            == FieldView::One(values[i]),
{
    let pairs = record_of(names, values)->Fields_0;
    lemma_record_prefix(names, values, i, pairs.len() as int);
    assert(pairs.take(pairs.len() as int) =~= pairs);
}

proof fn lemma_record_prefix(names: Seq<Seq<char>>, values: Seq<ScalarView>, i: int, k: int)
    requires
        distinct(names),
        names.len() == values.len(),
        0 <= i < names.len(),
        0 <= k <= names.len(),
    ensures
        record_of(names, values) matches ItemView::Fields(pairs) && field(pairs.take(k), names[i])
            == if k <= i {
            FieldView::Absent
        } else {
            FieldView::One(values[i])
        },
    decreases k,
{
    let pairs = record_of(names, values)->Fields_0;
    if k > 0 {
        lemma_record_prefix(names, values, i, k - 1);
        assert(pairs.take(k).drop_last() =~= pairs.take(k - 1));
        assert(pairs.take(k).last() == (ScalarView::Text(names[k - 1]), values[k - 1]));
        vstd::utf8::encode_utf8_decode_utf8(names[k - 1]);
        vstd::utf8::encode_utf8_decode_utf8(names[i]);
        if k - 1 != i {
            if k - 1 < i {
                assert(names[k - 1] != names[i]);
            } else {
                assert(names[i] != names[k - 1]);
            }
        }
    }
}

/// A field name.
pub fn text_key(name: &str) -> (key: Scalar)
    ensures
        key@ == ScalarView::Text(name@),
{
    Scalar::Text(name.to_owned())
}

/// A byte string.
pub fn bytes_value(bytes: &Vec<u8>) -> (value: Scalar)
    ensures
        value@ == ScalarView::Bytes(bytes@),
{
    Scalar::Bytes(copy_bytes(bytes.as_slice()))
}

// Sizes.

/// A length that every part of a record may have without the record getting too long.
pub const MAX_PART_LEN: u64 = 8_589_934_592;

/// The contents of a plain value are of such a length.
pub open spec fn part_fits(scalar: ScalarView) -> bool {
    scalar_size(scalar) <= 9 + MAX_PART_LEN
}

/// A record of at most twenty such parts, under its field names, can be encrypted.
pub proof fn lemma_record_fits(names: Seq<Seq<char>>, values: Seq<ScalarView>)
    requires
        names.len() == values.len(),
        names.len() <= 20,
        forall|i: int|
            0 <= i < names.len() ==> encode_utf8(#[trigger] names[i]).len() <= MAX_FIELD_NAME_LEN,
        forall|i: int| 0 <= i < values.len() ==> part_fits(#[trigger] values[i]),
    ensures
        item_size(record_of(names, values)) <= MAX_PLAINTEXT_LEN,
{
    let pairs = record_of(names, values)->Fields_0;
    let each: nat = (18 + MAX_FIELD_NAME_LEN + MAX_PART_LEN) as nat;
    assert forall|i: int| 0 <= i < pairs.len() implies scalar_size((#[trigger] pairs[i]).0)
        + scalar_size(pairs[i].1) <= each by {
        assert(pairs[i] == (ScalarView::Text(names[i]), values[i]));
        assert(encode_utf8(names[i]).len() <= MAX_FIELD_NAME_LEN);
        assert(part_fits(values[i]));
    }
    lemma_fields_size(pairs, each);
    assert(pairs.len() * each <= 20 * each) by (nonlinear_arith)
        requires
            pairs.len() <= 20,
    ;
}

proof fn lemma_fields_size(pairs: Seq<(ScalarView, ScalarView)>, each: nat)
    requires
        forall|i: int|
            0 <= i < pairs.len() ==> scalar_size((#[trigger] pairs[i]).0) + scalar_size(pairs[i].1)
                <= each,
    ensures
        fields_size(pairs) <= pairs.len() * each,
    decreases pairs.len(),
{
    if pairs.len() > 0 {
        let shorter = pairs.drop_last();
        assert forall|i: int| 0 <= i < shorter.len() implies scalar_size((#[trigger] shorter[i]).0)
            + scalar_size(shorter[i].1) <= each by {
            assert(shorter[i] == pairs[i]);
        }
        lemma_fields_size(shorter, each);
        assert(pairs.last() == pairs[pairs.len() - 1]);
        assert((pairs.len() - 1) * each + each == pairs.len() * each) by (nonlinear_arith);
    }
}

} // verus!
