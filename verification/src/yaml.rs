//! YAML documents as plain values, and the overlay merge of configuration
//! documents.
//!
//! An overlay document changes a base document: mappings merge key by key,
//! the keyed lists `agents`, `layers` and `secrets` merge entry by entry on
//! `name`, `id` and `env`, an explicitly empty keyed list clears the base
//! list, and every other value replaces the base value.

use vstd::prelude::*;

verus! {

/// A YAML value. Numbers keep their textual form; mappings keep their
/// entries in document order.
#[derive(Debug)]
pub enum Yaml {
    Null,
    Bool(bool),
    Number(String),
    Str(String),
    Sequence(Vec<Yaml>),
    Mapping(Vec<(Yaml, Yaml)>),
    Tagged(String, Box<Yaml>),
}

/// The mathematical form of a YAML value.
pub enum YamlView {
    Null,
    Bool(bool),
    Number(Seq<char>),
    Str(Seq<char>),
    Sequence(Seq<YamlView>),
    Mapping(Seq<(YamlView, YamlView)>),
    Tagged(Seq<char>, Box<YamlView>),
}

pub open spec fn yaml_view(y: Yaml) -> YamlView
    decreases y,
{
    match y {
        Yaml::Null => YamlView::Null,
        Yaml::Bool(b) => YamlView::Bool(b),
        Yaml::Number(n) => YamlView::Number(n@),
        Yaml::Str(s) => YamlView::Str(s@),
        Yaml::Sequence(v) => YamlView::Sequence(items_view(v@)),
        Yaml::Mapping(v) => YamlView::Mapping(entries_view(v@)),
        Yaml::Tagged(t, b) => YamlView::Tagged(t@, Box::new(yaml_view(*b))),
    }
}

pub open spec fn items_view(v: Seq<Yaml>) -> Seq<YamlView>
    decreases v,
{
    if v.len() == 0 {
        Seq::empty()
    } else {
        items_view(v.drop_last()).push(yaml_view(v.last()))
    }
}

pub open spec fn entries_view(v: Seq<(Yaml, Yaml)>) -> Seq<(YamlView, YamlView)>
    decreases v,
{
    if v.len() == 0 {
        Seq::empty()
    } else {
        entries_view(v.drop_last()).push((yaml_view(v.last().0), yaml_view(v.last().1)))
    }
}

impl Yaml {
    pub open spec fn view(&self) -> YamlView {
        yaml_view(*self)
    }
}

pub proof fn lemma_items_view(v: Seq<Yaml>)
    ensures
        items_view(v).len() == v.len(),
        forall|i: int| 0 <= i < v.len() ==> #[trigger] items_view(v)[i] == yaml_view(v[i]),
    decreases v.len(),
{
    if v.len() > 0 {
        lemma_items_view(v.drop_last());
        assert forall|i: int| 0 <= i < v.len() implies #[trigger] items_view(v)[i] == yaml_view(
            v[i],
        ) by {
            if i < v.len() - 1 {
                assert(v.drop_last()[i] == v[i]);
            }
        }
    }
}

pub proof fn lemma_entries_view(v: Seq<(Yaml, Yaml)>)
    ensures
        entries_view(v).len() == v.len(),
        forall|i: int|
            0 <= i < v.len() ==> #[trigger] entries_view(v)[i] == (
                yaml_view(v[i].0),
                yaml_view(v[i].1),
            ),
    decreases v.len(),
{
    if v.len() > 0 {
        lemma_entries_view(v.drop_last());
        assert forall|i: int| 0 <= i < v.len() implies #[trigger] entries_view(v)[i] == (
            yaml_view(v[i].0),
            yaml_view(v[i].1),
        ) by {
            if i < v.len() - 1 {
                assert(v.drop_last()[i] == v[i]);
            }
        }
    }
}

// ---------------------------------------------------------------------------
// Reading values
// ---------------------------------------------------------------------------

/// A value without its tags.
pub open spec fn untag_v(y: YamlView) -> YamlView
    decreases y,
{
    match y {
        YamlView::Tagged(_, inner) => untag_v(*inner),
        _ => y,
    }
}

/// The string a value holds, looking through tags.
pub open spec fn as_str_v(y: YamlView) -> Option<Seq<char>> {
    match untag_v(y) {
        YamlView::Str(s) => Some(s),
        _ => None,
    }
}

/// The position of the first entry with key `k`, or -1.
pub open spec fn key_index(entries: Seq<(YamlView, YamlView)>, k: YamlView) -> int
    decreases entries.len(),
{
    if entries.len() == 0 {
        -1
    } else if entries[0].0 == k {
        0
    } else {
        let r = key_index(entries.drop_first(), k);
        if r < 0 {
            -1
        } else {
            r + 1
        }
    }
}

pub proof fn lemma_key_index(entries: Seq<(YamlView, YamlView)>, k: YamlView)
    ensures
        -1 <= key_index(entries, k) < entries.len(),
        key_index(entries, k) >= 0 ==> entries[key_index(entries, k)].0 == k,
        forall|i: int|
            0 <= i < entries.len() && (key_index(entries, k) < 0 || i < key_index(entries, k))
                ==> entries[i].0 != k,
    decreases entries.len(),
{
    if entries.len() > 0 && entries[0].0 != k {
        lemma_key_index(entries.drop_first(), k);
        assert forall|i: int|
            0 <= i < entries.len() && (key_index(entries, k) < 0 || i < key_index(entries, k))
                implies entries[i].0 != k by {
            if i > 0 {
                assert(entries.drop_first()[i - 1] == entries[i]);
            }
        }
    }
}

/// The identity value of a keyed-list entry: the string under key `id` of
/// the entry's mapping.
pub open spec fn entry_identity(item: YamlView, id: Seq<char>) -> Option<Seq<char>> {
    match untag_v(item) {
        YamlView::Mapping(es) => {
            let j = key_index(es, YamlView::Str(id));
            if j >= 0 {
                as_str_v(es[j].1)
            } else {
                None
            }
        },
        _ => None,
    }
}

/// The position of the first item whose identity is `value`, or -1.
pub open spec fn item_index(items: Seq<YamlView>, id: Seq<char>, value: Seq<char>) -> int
    decreases items.len(),
{
    if items.len() == 0 {
        -1
    } else if entry_identity(items[0], id) == Some(value) {
        0
    } else {
        let r = item_index(items.drop_first(), id, value);
        if r < 0 {
            -1
        } else {
            r + 1
        }
    }
}

pub proof fn lemma_item_index(items: Seq<YamlView>, id: Seq<char>, value: Seq<char>)
    ensures
        -1 <= item_index(items, id, value) < items.len(),
        item_index(items, id, value) >= 0 ==> entry_identity(
            items[item_index(items, id, value)],
            id,
        ) == Some(value),
        forall|i: int|
            0 <= i < items.len() && (item_index(items, id, value) < 0 || i < item_index(
                items,
                id,
                value,
            )) ==> entry_identity(items[i], id) != Some(value),
    decreases items.len(),
{
    if items.len() > 0 && entry_identity(items[0], id) != Some(value) {
        lemma_item_index(items.drop_first(), id, value);
        assert forall|i: int|
            0 <= i < items.len() && (item_index(items, id, value) < 0 || i < item_index(
                items,
                id,
                value,
            )) implies entry_identity(items[i], id) != Some(value) by {
            if i > 0 {
                assert(items.drop_first()[i - 1] == items[i]);
            }
        }
    }
}

/// The identity key of a keyed list: `agents` by `name`, `layers` by `id`,
/// `secrets` by `env`.
pub open spec fn identity_key(field: Seq<char>) -> Option<Seq<char>> {
    if field == "agents"@ {
        Some("name"@)
    } else if field == "layers"@ {
        Some("id"@)
    } else if field == "secrets"@ {
        Some("env"@)
    } else {
        None
    }
}

// ---------------------------------------------------------------------------
// The merge, as mathematics
// ---------------------------------------------------------------------------

/// `overlay` merged into `base`, reached through the mapping key `field`.
/// An error names the identity key that a keyed-list entry lacks.
pub open spec fn merge_spec(base: YamlView, overlay: YamlView, field: Option<Seq<char>>) -> Result<
    YamlView,
    Seq<char>,
>
    decreases overlay, 2int,
{
    let keyed = match field {
        Some(f) => identity_key(f),
        None => None,
    };
    match keyed {
        Some(id) => merge_keyed_spec(base, overlay, id),
        None => match (base, overlay) {
            (YamlView::Mapping(b), YamlView::Mapping(o)) => match merge_entries_spec(b, o) {
                Ok(e) => Ok(YamlView::Mapping(e)),
                Err(x) => Err(x),
            },
            _ => Ok(overlay),
        },
    }
}

/// A keyed list: an empty overlay list clears the base, a non-list on either
/// side replaces, and otherwise each patch merges into the base item with
/// its identity or is appended.
pub open spec fn merge_keyed_spec(base: YamlView, overlay: YamlView, id: Seq<char>) -> Result<
    YamlView,
    Seq<char>,
>
    decreases overlay, 1int,
{
    match overlay {
        YamlView::Sequence(patches) => if patches.len() == 0 {
            Ok(YamlView::Sequence(Seq::empty()))
        } else {
            match base {
                YamlView::Sequence(items) => match merge_patches_spec(items, patches, id) {
                    Ok(v) => Ok(YamlView::Sequence(v)),
                    Err(x) => Err(x),
                },
                _ => Ok(overlay),
            }
        },
        _ => Ok(overlay),
    }
}

/// The patches applied in order.
pub open spec fn merge_patches_spec(items: Seq<YamlView>, patches: Seq<YamlView>, id: Seq<char>) -> Result<
    Seq<YamlView>,
    Seq<char>,
>
    decreases patches, 0int,
{
    if patches.len() == 0 {
        Ok(items)
    } else {
        match merge_patches_spec(items, patches.drop_last(), id) {
            Err(x) => Err(x),
            Ok(cur) => {
                let patch = patches[patches.len() - 1];
                match entry_identity(patch, id) {
                    None => Err(id),
                    Some(value) => {
                        let j = item_index(cur, id, value);
                        if 0 <= j < cur.len() {
                            match merge_spec(cur[j], patch, None) {
                                Ok(m) => Ok(cur.update(j, m)),
                                Err(x) => Err(x),
                            }
                        } else {
                            Ok(cur.push(patch))
                        }
                    },
                }
            },
        }
    }
}

/// The overlay's entries applied in order: a present key merges, a new key
/// is appended.
pub open spec fn merge_entries_spec(
    base: Seq<(YamlView, YamlView)>,
    overlay: Seq<(YamlView, YamlView)>,
) -> Result<Seq<(YamlView, YamlView)>, Seq<char>>
    decreases overlay, 0int,
{
    if overlay.len() == 0 {
        Ok(base)
    } else {
        match merge_entries_spec(base, overlay.drop_last()) {
            Err(x) => Err(x),
            Ok(cur) => {
                let k = overlay[overlay.len() - 1].0;
                let v = overlay[overlay.len() - 1].1;
                let j = key_index(cur, k);
                if 0 <= j < cur.len() {
                    match merge_spec(cur[j].1, v, as_str_v(k)) {
                        Ok(m) => Ok(cur.update(j, (cur[j].0, m))),
                        Err(x) => Err(x),
                    }
                } else {
                    Ok(cur.push((k, v)))
                }
            },
        }
    }
}

// ---------------------------------------------------------------------------
// Reading values, executably
// ---------------------------------------------------------------------------

/// A copy of `y`.
pub fn yaml_clone(y: &Yaml) -> (c: Yaml)
    ensures
        c.view() == y.view(),
    decreases y,
{
    match y {
        Yaml::Null => Yaml::Null,
        Yaml::Bool(b) => Yaml::Bool(*b),
        Yaml::Number(n) => Yaml::Number(n.clone()),
        Yaml::Str(t) => Yaml::Str(t.clone()),
        Yaml::Sequence(v) => {
            proof {
                lemma_items_view(v@);
            }
            let mut out: Vec<Yaml> = Vec::new();
            let mut i: usize = 0;
            while i < v.len()
                invariant
                    i <= v@.len(),
                    *y == Yaml::Sequence(*v),
                    items_view(v@).len() == v@.len(),
                    forall|k: int| 0 <= k < v@.len() ==> #[trigger] items_view(v@)[k] == yaml_view(v@[k]),
                    items_view(out@) == items_view(v@).take(i as int),
                decreases v@.len() - i,
            {
                assert(items_view(v@)[i as int] == yaml_view(v@[i as int]));
                proof {
                    assert(decreases_to!(*y => (*y)->Sequence_0));
                    assert(decreases_to!(*v => v@));
                    assert(decreases_to!(v@ => v@[i as int]));
                }
                let c = yaml_clone(&v[i]);
                let ghost before = out@;
                out.push(c);
                proof {
                    assert(out@.drop_last() =~= before);
                    assert(items_view(v@).take(i + 1) =~= items_view(v@).take(i as int).push(
                        items_view(v@)[i as int],
                    ));
                }
                i = i + 1;
            }
            assert(items_view(v@).take(v@.len() as int) =~= items_view(v@));
            Yaml::Sequence(out)
        },
        Yaml::Mapping(v) => {
            proof {
                lemma_entries_view(v@);
            }
            let mut out: Vec<(Yaml, Yaml)> = Vec::new();
            let mut i: usize = 0;
            while i < v.len()
                invariant
                    i <= v@.len(),
                    *y == Yaml::Mapping(*v),
                    entries_view(v@).len() == v@.len(),
                    forall|k: int|
                        0 <= k < v@.len() ==> #[trigger] entries_view(v@)[k] == (
                            yaml_view(v@[k].0),
                            yaml_view(v@[k].1),
                        ),
                    entries_view(out@) == entries_view(v@).take(i as int),
                decreases v@.len() - i,
            {
                assert(entries_view(v@)[i as int] == (
                    yaml_view(v@[i as int].0),
                    yaml_view(v@[i as int].1),
                ));
                proof {
                    assert(decreases_to!(*y => (*y)->Mapping_0));
                    assert(decreases_to!(*v => v@));
                    assert(decreases_to!(v@ => v@[i as int]));
                    assert(decreases_to!(v@[i as int] => v@[i as int].0));
                    assert(decreases_to!(v@[i as int] => v@[i as int].1));
                }
                let k = yaml_clone(&v[i].0);
                let val = yaml_clone(&v[i].1);
                let ghost before = out@;
                out.push((k, val));
                proof {
                    assert(out@.drop_last() =~= before);
                    assert(entries_view(v@).take(i + 1) =~= entries_view(v@).take(i as int).push(
                        entries_view(v@)[i as int],
                    ));
                }
                i = i + 1;
            }
            assert(entries_view(v@).take(v@.len() as int) =~= entries_view(v@));
            Yaml::Mapping(out)
        },
        Yaml::Tagged(t, b) => {
            let inner = yaml_clone(&**b);
            Yaml::Tagged(t.clone(), Box::new(inner))
        },
    }
}

/// `y` without its tags.
pub fn untag(y: &Yaml) -> (r: &Yaml)
    ensures
        r.view() == untag_v(y.view()),
    decreases y,
{
    match y {
        Yaml::Tagged(_, b) => untag(&**b),
        _ => y,
    }
}

/// `Value::as_str`: the string `y` holds, through any tags.
pub fn as_str(y: &Yaml) -> (r: Option<&String>)
    ensures
        match r {
            Some(s) => as_str_v(y.view()) == Some(s@),
            None => as_str_v(y.view()) is None,
        },
{
    match untag(y) {
        Yaml::Str(s) => Some(s),
        _ => None,
    }
}

/// Whether `a` and `b` are the same value (entries compared in order).
pub fn yaml_eq(a: &Yaml, b: &Yaml) -> (r: bool)
    ensures
        r == (a.view() == b.view()),
    decreases a,
{
    match (a, b) {
        (Yaml::Null, Yaml::Null) => true,
        (Yaml::Bool(x), Yaml::Bool(y)) => *x == *y,
        (Yaml::Number(x), Yaml::Number(y)) => crate::text::text_eq(x.as_str(), y.as_str()),
        (Yaml::Str(x), Yaml::Str(y)) => crate::text::text_eq(x.as_str(), y.as_str()),
        (Yaml::Tagged(t1, b1), Yaml::Tagged(t2, b2)) => {
            if !crate::text::text_eq(t1.as_str(), t2.as_str()) {
                return false;
            }
            yaml_eq(&**b1, &**b2)
        },
        (Yaml::Sequence(v1), Yaml::Sequence(v2)) => {
            proof {
                lemma_items_view(v1@);
                lemma_items_view(v2@);
            }
            if v1.len() != v2.len() {
                return false;
            }
            let mut i: usize = 0;
            while i < v1.len()
                invariant
                    i <= v1@.len(),
                    v1@.len() == v2@.len(),
                    *a == Yaml::Sequence(*v1),
                    *b == Yaml::Sequence(*v2),
                    items_view(v1@).len() == v1@.len(),
                    items_view(v2@).len() == v2@.len(),
                    forall|k: int| 0 <= k < v1@.len() ==> #[trigger] items_view(v1@)[k] == yaml_view(v1@[k]),
                    forall|k: int| 0 <= k < v2@.len() ==> #[trigger] items_view(v2@)[k] == yaml_view(v2@[k]),
                    forall|k: int| 0 <= k < i ==> items_view(v1@)[k] == items_view(v2@)[k],
                decreases v1@.len() - i,
            {
                assert(items_view(v1@)[i as int] == yaml_view(v1@[i as int]));
                proof {
                    assert(decreases_to!(*a => (*a)->Sequence_0));
                    assert(decreases_to!(*v1 => v1@));
                    assert(decreases_to!(v1@ => v1@[i as int]));
                }
                if !yaml_eq(&v1[i], &v2[i]) {
                    assert(items_view(v1@)[i as int] != items_view(v2@)[i as int]);
                    return false;
                }
                i = i + 1;
            }
            assert(items_view(v1@) =~= items_view(v2@));
            true
        },
        (Yaml::Mapping(v1), Yaml::Mapping(v2)) => {
            proof {
                lemma_entries_view(v1@);
                lemma_entries_view(v2@);
            }
            if v1.len() != v2.len() {
                return false;
            }
            let mut i: usize = 0;
            while i < v1.len()
                invariant
                    i <= v1@.len(),
                    v1@.len() == v2@.len(),
                    *a == Yaml::Mapping(*v1),
                    *b == Yaml::Mapping(*v2),
                    entries_view(v1@).len() == v1@.len(),
                    entries_view(v2@).len() == v2@.len(),
                    forall|k: int|
                        0 <= k < v1@.len() ==> #[trigger] entries_view(v1@)[k] == (
                            yaml_view(v1@[k].0),
                            yaml_view(v1@[k].1),
                        ),
                    forall|k: int|
                        0 <= k < v2@.len() ==> #[trigger] entries_view(v2@)[k] == (
                            yaml_view(v2@[k].0),
                            yaml_view(v2@[k].1),
                        ),
                    forall|k: int| 0 <= k < i ==> entries_view(v1@)[k] == entries_view(v2@)[k],
                decreases v1@.len() - i,
            {
                assert(entries_view(v1@)[i as int] == (
                    yaml_view(v1@[i as int].0),
                    yaml_view(v1@[i as int].1),
                ));
                proof {
                    assert(decreases_to!(*a => (*a)->Mapping_0));
                    assert(decreases_to!(*v1 => v1@));
                    assert(decreases_to!(v1@ => v1@[i as int]));
                    assert(decreases_to!(v1@[i as int] => v1@[i as int].0));
                    assert(decreases_to!(v1@[i as int] => v1@[i as int].1));
                }
                if !yaml_eq(&v1[i].0, &v2[i].0) {
                    assert(entries_view(v1@)[i as int] != entries_view(v2@)[i as int]);
                    return false;
                }
                if !yaml_eq(&v1[i].1, &v2[i].1) {
                    assert(entries_view(v1@)[i as int] != entries_view(v2@)[i as int]);
                    return false;
                }
                i = i + 1;
            }
            assert(entries_view(v1@) =~= entries_view(v2@));
            true
        },
        _ => false,
    }
}

fn find_key(entries: &Vec<(Yaml, Yaml)>, k: &Yaml) -> (r: Option<usize>)
    ensures
        match r {
            Some(j) => key_index(entries_view(entries@), k.view()) == j as int,
            None => key_index(entries_view(entries@), k.view()) < 0,
        },
{
    proof {
        lemma_entries_view(entries@);
        lemma_key_index(entries_view(entries@), k.view());
    }
    let mut i: usize = 0;
    while i < entries.len()
        invariant
            i <= entries@.len(),
            entries_view(entries@).len() == entries@.len(),
            forall|j: int|
                0 <= j < entries@.len() ==> #[trigger] entries_view(entries@)[j] == (
                    yaml_view(entries@[j].0),
                    yaml_view(entries@[j].1),
                ),
            forall|j: int| 0 <= j < i ==> entries_view(entries@)[j].0 != k.view(),
        decreases entries@.len() - i,
    {
        assert(entries_view(entries@)[i as int].0 == yaml_view(entries@[i as int].0));
        if yaml_eq(&entries[i].0, k) {
            proof {
                lemma_key_index(entries_view(entries@), k.view());
            }
            return Some(i);
        }
        i = i + 1;
    }
    proof {
        lemma_key_index(entries_view(entries@), k.view());
    }
    None
}

fn identity_of<'a>(item: &'a Yaml, id: &str) -> (r: Option<&'a String>)
    ensures
        match r {
            Some(s) => entry_identity(item.view(), id@) == Some(s@),
            None => entry_identity(item.view(), id@) is None,
        },
{
    match untag(item) {
        Yaml::Mapping(es) => {
            let key = Yaml::Str(crate::text::concat(id, ""));
            proof {
                assert(id@ + ""@ =~= id@) by {
                    reveal_strlit("");
                }
                lemma_entries_view(es@);
            }
            match find_key(es, &key) {
                Some(j) => {
                    proof {
                        lemma_key_index(entries_view(es@), key.view());
                    }
                    assert(entries_view(es@)[j as int] == (
                        yaml_view(es@[j as int].0),
                        yaml_view(es@[j as int].1),
                    ));
                    as_str(&es[j].1)
                },
                None => None,
            }
        },
        _ => None,
    }
}

fn find_item(items: &Vec<Yaml>, id: &str, value: &String) -> (r: Option<usize>)
    ensures
        match r {
            Some(j) => item_index(items_view(items@), id@, value@) == j as int,
            None => item_index(items_view(items@), id@, value@) < 0,
        },
{
    proof {
        lemma_items_view(items@);
        lemma_item_index(items_view(items@), id@, value@);
    }
    let mut i: usize = 0;
    while i < items.len()
        invariant
            i <= items@.len(),
            items_view(items@).len() == items@.len(),
            forall|j: int| 0 <= j < items@.len() ==> #[trigger] items_view(items@)[j] == yaml_view(items@[j]),
            forall|j: int| 0 <= j < i ==> entry_identity(items_view(items@)[j], id@) != Some(value@),
        decreases items@.len() - i,
    {
        assert(items_view(items@)[i as int] == yaml_view(items@[i as int]));
        match identity_of(&items[i], id) {
            Some(s) => {
                if crate::text::text_eq(s.as_str(), value.as_str()) {
                    proof {
                        lemma_item_index(items_view(items@), id@, value@);
                    }
                    return Some(i);
                }
            },
            None => {},
        }
        i = i + 1;
    }
    proof {
        lemma_item_index(items_view(items@), id@, value@);
    }
    None
}

// ---------------------------------------------------------------------------
// The merge, executably
// ---------------------------------------------------------------------------

/// A keyed-list overlay entry without its identity key.
#[derive(Debug)]
pub struct MergeError {
    pub identity: String,
}

impl MergeError {
    /// `overlay entry in keyed list must have <identity>`.
    pub fn message(&self) -> (s: String)
        ensures
            s@ == "overlay entry in keyed list must have "@ + self.identity@,
    {
        crate::text::concat("overlay entry in keyed list must have ", self.identity.as_str())
    }
}

pub open spec fn field_view(field: Option<&str>) -> Option<Seq<char>> {
    match field {
        Some(f) => Some(f@),
        None => None,
    }
}

pub open spec fn merge_result_matches(r: Result<Yaml, MergeError>, s: Result<YamlView, Seq<char>>) -> bool {
    match s {
        Ok(v) => r matches Ok(y) && y.view() == v,
        Err(id) => r matches Err(e) && e.identity@ == id,
    }
}

/// `identity_field`: the identity key of a keyed list.
pub fn identity_field(field: &str) -> (r: Option<&'static str>)
    ensures
        match r {
            Some(k) => identity_key(field@) == Some(k@),
            None => identity_key(field@) is None,
        },
{
    if crate::text::text_eq(field, "agents") {
        Some("name")
    } else if crate::text::text_eq(field, "layers") {
        Some("id")
    } else if crate::text::text_eq(field, "secrets") {
        Some("env")
    } else {
        None
    }
}

/// `overlay` merged into `base`, reached through the mapping key `field`.
pub fn merge(base: Yaml, overlay: &Yaml, field: Option<&str>) -> (r: Result<Yaml, MergeError>)
    ensures
        merge_result_matches(r, merge_spec(base.view(), overlay.view(), field_view(field))),
    decreases yaml_view(*overlay), 2int,
{
    let keyed = match field {
        Some(f) => identity_field(f),
        None => None,
    };
    match keyed {
        Some(id) => {
            return merge_keyed(base, overlay, id);
        },
        None => {},
    }
    match base {
        Yaml::Mapping(b) => match overlay {
            Yaml::Mapping(o) => match merge_entries(b, o) {
                Ok(e) => Ok(Yaml::Mapping(e)),
                Err(x) => Err(x),
            },
            _ => Ok(yaml_clone(overlay)),
        },
        _ => Ok(yaml_clone(overlay)),
    }
}

fn merge_keyed(base: Yaml, overlay: &Yaml, id: &str) -> (r: Result<Yaml, MergeError>)
    ensures
        merge_result_matches(r, merge_keyed_spec(base.view(), overlay.view(), id@)),
    decreases yaml_view(*overlay), 1int,
{
    match overlay {
        Yaml::Sequence(patches) => {
            proof {
                lemma_items_view(patches@);
            }
            if patches.len() == 0 {
                let empty: Vec<Yaml> = Vec::new();
                assert(items_view(empty@) =~= Seq::<YamlView>::empty());
                return Ok(Yaml::Sequence(empty));
            }
            match base {
                Yaml::Sequence(items) => match merge_patches(items, patches, id) {
                    Ok(v) => Ok(Yaml::Sequence(v)),
                    Err(x) => Err(x),
                },
                _ => Ok(yaml_clone(overlay)),
            }
        },
        _ => Ok(yaml_clone(overlay)),
    }
}

pub proof fn lemma_items_view_update(v: Seq<Yaml>, j: int, x: Yaml)
    requires
        0 <= j < v.len(),
    ensures
        items_view(v.update(j, x)) == items_view(v).update(j, yaml_view(x)),
{
    lemma_items_view(v);
    lemma_items_view(v.update(j, x));
    assert(items_view(v.update(j, x)) =~= items_view(v).update(j, yaml_view(x)));
}

pub proof fn lemma_entries_view_update(v: Seq<(Yaml, Yaml)>, j: int, x: (Yaml, Yaml))
    requires
        0 <= j < v.len(),
    ensures
        entries_view(v.update(j, x)) == entries_view(v).update(j, (yaml_view(x.0), yaml_view(x.1))),
{
    lemma_entries_view(v);
    lemma_entries_view(v.update(j, x));
    assert(entries_view(v.update(j, x)) =~= entries_view(v).update(
        j,
        (yaml_view(x.0), yaml_view(x.1)),
    ));
}

proof fn lemma_merge_patches_err(iv: Seq<YamlView>, pv: Seq<YamlView>, k: int, id: Seq<char>)
    requires
        0 <= k <= pv.len(),
        merge_patches_spec(iv, pv.take(k), id) is Err,
    ensures
        merge_patches_spec(iv, pv, id) == merge_patches_spec(iv, pv.take(k), id),
    decreases pv.len() - k,
{
    if k == pv.len() {
        assert(pv.take(k) =~= pv);
    } else {
        assert(pv.drop_last().take(k) =~= pv.take(k));
        lemma_merge_patches_err(iv, pv.drop_last(), k, id);
    }
}

proof fn lemma_merge_entries_err(
    bv: Seq<(YamlView, YamlView)>,
    ov: Seq<(YamlView, YamlView)>,
    k: int,
)
    requires
        0 <= k <= ov.len(),
        merge_entries_spec(bv, ov.take(k)) is Err,
    ensures
        merge_entries_spec(bv, ov) == merge_entries_spec(bv, ov.take(k)),
    decreases ov.len() - k,
{
    if k == ov.len() {
        assert(ov.take(k) =~= ov);
    } else {
        assert(ov.drop_last().take(k) =~= ov.take(k));
        lemma_merge_entries_err(bv, ov.drop_last(), k);
    }
}

fn merge_patches(items: Vec<Yaml>, patches: &Vec<Yaml>, id: &str) -> (r: Result<Vec<Yaml>, MergeError>)
    ensures
        match merge_patches_spec(items_view(items@), items_view(patches@), id@) {
            Ok(v) => r matches Ok(out) && items_view(out@) == v,
            Err(x) => r matches Err(e) && e.identity@ == x,
        },
    decreases items_view(patches@), 0int,
{
    let ghost iv = items_view(items@);
    let ghost pv = items_view(patches@);
    proof {
        lemma_items_view(patches@);
        assert(pv.take(0) =~= Seq::<YamlView>::empty());
    }
    let mut cur = items;
    let mut i: usize = 0;
    while i < patches.len()
        invariant
            i <= patches@.len(),
            iv == items_view(items@),
            pv == items_view(patches@),
            pv.len() == patches@.len(),
            forall|k: int| 0 <= k < patches@.len() ==> #[trigger] pv[k] == yaml_view(patches@[k]),
            merge_patches_spec(iv, pv.take(i as int), id@) == Ok::<Seq<YamlView>, Seq<char>>(
                items_view(cur@),
            ),
        decreases patches@.len() - i,
    {
        let patch = &patches[i];
        let ghost cv = items_view(cur@);
        proof {
            assert(pv.take(i + 1).drop_last() =~= pv.take(i as int));
            assert(pv.take(i + 1)[i as int] == pv[i as int]);
            assert(pv[i as int] == yaml_view(patches@[i as int]));
            lemma_items_view(cur@);
            lemma_item_index(cv, id@, id@);
        }
        let value = match identity_of(patch, id) {
            Some(v) => v,
            None => {
                let err = MergeError { identity: crate::text::concat(id, "") };
                proof {
                    assert(id@ + ""@ =~= id@) by {
                        reveal_strlit("");
                    }
                    assert(merge_patches_spec(iv, pv.take(i + 1), id@) == Err::<Seq<YamlView>, Seq<char>>(id@));
                    lemma_merge_patches_err(iv, pv, i + 1, id@);
                }
                return Err(err);
            },
        };
        proof {
            lemma_item_index(cv, id@, value@);
        }
        match find_item(&cur, id, value) {
            Some(j) => {
                let ghost old_cur = cur@;
                let item = cur.remove(j);
                assert(yaml_view(item) == cv[j as int]);
                proof {
                    assert(decreases_to!(pv => pv[i as int]));
                }
                let merged = match merge(item, patch, None) {
                    Ok(m) => m,
                    Err(e) => {
                        proof {
                            assert(merge_patches_spec(iv, pv.take(i + 1), id@) == Err::<Seq<YamlView>, Seq<char>>(e.identity@));
                            lemma_merge_patches_err(iv, pv, i + 1, id@);
                        }
                        return Err(e);
                    },
                };
                cur.insert(j, merged);
                proof {
                    assert(cur@ =~= old_cur.update(j as int, merged));
                    lemma_items_view_update(old_cur, j as int, merged);
                }
            },
            None => {
                let c = yaml_clone(patch);
                let ghost old_cur = cur@;
                cur.push(c);
                proof {
                    assert(cur@.drop_last() =~= old_cur);
                }
            },
        }
        i = i + 1;
    }
    assert(pv.take(patches@.len() as int) =~= pv);
    Ok(cur)
}

fn merge_entries(base: Vec<(Yaml, Yaml)>, overlay: &Vec<(Yaml, Yaml)>) -> (r: Result<
    Vec<(Yaml, Yaml)>,
    MergeError,
>)
    ensures
        match merge_entries_spec(entries_view(base@), entries_view(overlay@)) {
            Ok(v) => r matches Ok(out) && entries_view(out@) == v,
            Err(x) => r matches Err(e) && e.identity@ == x,
        },
    decreases entries_view(overlay@), 0int,
{
    let ghost bv = entries_view(base@);
    let ghost ov = entries_view(overlay@);
    proof {
        lemma_entries_view(overlay@);
        assert(ov.take(0) =~= Seq::<(YamlView, YamlView)>::empty());
    }
    let mut cur = base;
    let mut i: usize = 0;
    while i < overlay.len()
        invariant
            i <= overlay@.len(),
            bv == entries_view(base@),
            ov == entries_view(overlay@),
            ov.len() == overlay@.len(),
            forall|k: int|
                0 <= k < overlay@.len() ==> #[trigger] ov[k] == (
                    yaml_view(overlay@[k].0),
                    yaml_view(overlay@[k].1),
                ),
            merge_entries_spec(bv, ov.take(i as int)) == Ok::<
                Seq<(YamlView, YamlView)>,
                Seq<char>,
            >(entries_view(cur@)),
        decreases overlay@.len() - i,
    {
        let key = &overlay[i].0;
        let value = &overlay[i].1;
        let ghost cv = entries_view(cur@);
        proof {
            assert(ov.take(i + 1).drop_last() =~= ov.take(i as int));
            assert(ov.take(i + 1)[i as int] == ov[i as int]);
            assert(ov[i as int] == (yaml_view(overlay@[i as int].0), yaml_view(overlay@[i as int].1)));
            lemma_entries_view(cur@);
            lemma_key_index(cv, key.view());
        }
        match find_key(&cur, key) {
            Some(j) => {
                let ghost old_cur = cur@;
                let (k0, v0) = cur.remove(j);
                assert(yaml_view(v0) == cv[j as int].1);
                assert(yaml_view(k0) == cv[j as int].0);
                let field = match as_str(key) {
                    Some(f) => Some(f.as_str()),
                    None => None,
                };
                proof {
                    assert(decreases_to!(ov => ov[i as int]));
                    assert(decreases_to!(ov[i as int] => ov[i as int].1));
                }
                let merged = match merge(v0, value, field) {
                    Ok(m) => m,
                    Err(e) => {
                        proof {
                            assert(merge_entries_spec(bv, ov.take(i + 1)) == Err::<Seq<(YamlView, YamlView)>, Seq<char>>(e.identity@));
                            lemma_merge_entries_err(bv, ov, i + 1);
                        }
                        return Err(e);
                    },
                };
                let ghost entry = (k0, merged);
                cur.insert(j, (k0, merged));
                proof {
                    assert(cur@ =~= old_cur.update(j as int, entry));
                    lemma_entries_view_update(old_cur, j as int, entry);
                }
            },
            None => {
                let k = yaml_clone(key);
                let v = yaml_clone(value);
                let ghost old_cur = cur@;
                cur.push((k, v));
                proof {
                    assert(cur@.drop_last() =~= old_cur);
                }
            },
        }
        i = i + 1;
    }
    assert(ov.take(overlay@.len() as int) =~= ov);
    Ok(cur)
}

/// `merge_value`: merges `overlay` into `base` in place. On error `base`
/// is left unspecified.
pub fn merge_value(base: &mut Yaml, overlay: Yaml, field: Option<&str>) -> (r: Result<(), MergeError>)
    ensures
        match merge_spec(old(base).view(), overlay.view(), field_view(field)) {
            Ok(v) => r is Ok && final(base).view() == v,
            Err(x) => r matches Err(e) && e.identity@ == x,
        },
{
    let mut b = Yaml::Null;
    std::mem::swap(&mut b, base);
    match merge(b, &overlay, field) {
        Ok(m) => {
            *base = m;
            Ok(())
        },
        Err(e) => Err(e),
    }
}

/// `merge_keyed_sequence`: merges a keyed list in place. On error `base`
/// is left unspecified.
pub fn merge_keyed_sequence(base: &mut Yaml, overlay: Yaml, identity: &str) -> (r: Result<
    (),
    MergeError,
>)
    ensures
        match merge_keyed_spec(old(base).view(), overlay.view(), identity@) {
            Ok(v) => r is Ok && final(base).view() == v,
            Err(x) => r matches Err(e) && e.identity@ == x,
        },
{
    let mut b = Yaml::Null;
    std::mem::swap(&mut b, base);
    match merge_keyed(b, &overlay, identity) {
        Ok(m) => {
            *base = m;
            Ok(())
        },
        Err(e) => Err(e),
    }
}

/// Whether an overlay document's text is blank, so that the defaults stand
/// alone.
pub fn overlay_is_blank(text: &str) -> (b: bool)
    ensures
        b == (crate::text::trim_spec(text@).len() == 0),
{
    let t = crate::text::trim(text);
    t.as_str().is_empty()
}

/// The defaults with the overlay document merged in, if there is one.
pub fn merge_documents(defaults: Yaml, overlay: Option<Yaml>) -> (r: Result<Yaml, MergeError>)
    ensures
        match overlay {
            None => r matches Ok(y) && y.view() == defaults.view(),
            Some(o) => merge_result_matches(r, merge_spec(defaults.view(), o.view(), None)),
        },
{
    match overlay {
        None => Ok(defaults),
        Some(o) => merge(defaults, &o, None),
    }
}

// ---------------------------------------------------------------------------
// Laws of the overlay merge
// ---------------------------------------------------------------------------

/// An explicitly empty keyed list clears the base list, whatever it held.
pub proof fn law_empty_keyed_list_clears(base: YamlView, field: Seq<char>)
    requires
        identity_key(field) is Some,
    ensures
        merge_spec(base, YamlView::Sequence(Seq::empty()), Some(field)) == Ok::<
            YamlView,
            Seq<char>,
        >(YamlView::Sequence(Seq::empty())),
{
}

/// Outside the keyed lists, an overlay value that is not a mapping merged
/// into a mapping replaces the base value: lists and scalars are not
/// merged.
pub proof fn law_plain_values_replace(base: YamlView, overlay: YamlView, field: Option<Seq<char>>)
    requires
        !(base is Mapping && overlay is Mapping),
        match field {
            Some(f) => identity_key(f) is None,
            None => true,
        },
    ensures
        merge_spec(base, overlay, field) == Ok::<YamlView, Seq<char>>(overlay),
{
}

/// An empty overlay mapping leaves a mapping as it is.
pub proof fn law_empty_overlay_is_identity(base: Seq<(YamlView, YamlView)>)
    ensures
        merge_spec(YamlView::Mapping(base), YamlView::Mapping(Seq::empty()), None) == Ok::<
            YamlView,
            Seq<char>,
        >(YamlView::Mapping(base)),
{
}

/// An entry of the base whose key the overlay does not mention keeps its
/// place and its value; the merged mapping is never shorter than the base.
pub proof fn law_merge_keeps_unmentioned(
    base: Seq<(YamlView, YamlView)>,
    overlay: Seq<(YamlView, YamlView)>,
    j: int,
)
    requires
        0 <= j < base.len(),
        merge_entries_spec(base, overlay) is Ok,
        forall|i: int| 0 <= i < overlay.len() ==> #[trigger] overlay[i].0 != base[j].0,
    ensures
        merge_entries_spec(base, overlay)->Ok_0.len() >= base.len(),
        merge_entries_spec(base, overlay)->Ok_0[j] == base[j],
    decreases overlay.len(),
{
    if overlay.len() > 0 {
        let rest = overlay.drop_last();
        assert forall|i: int| 0 <= i < rest.len() implies #[trigger] rest[i].0 != base[j].0 by {
            assert(rest[i] == overlay[i]);
        }
        assert(merge_entries_spec(base, rest) is Ok);
        law_merge_keeps_unmentioned(base, rest, j);
        let cur = merge_entries_spec(base, rest)->Ok_0;
        let k = overlay[overlay.len() - 1].0;
        assert(k != base[j].0);
        lemma_key_index(cur, k);
    }
}

/// `r` is the position of the first entry with key `k`, or -1 when none has
/// it; then it is what `key_index` gives.
proof fn lemma_key_index_is(entries: Seq<(YamlView, YamlView)>, k: YamlView, r: int)
    requires
        -1 <= r < entries.len(),
        r >= 0 ==> entries[r].0 == k,
        forall|i: int| 0 <= i < entries.len() && (r < 0 || i < r) ==> entries[i].0 != k,
    ensures
        key_index(entries, k) == r,
{
    lemma_key_index(entries, k);
    let q = key_index(entries, k);
    if q != r {
        if q >= 0 {
            assert(entries[q].0 == k);
            if r >= 0 && r < q {
                assert(entries[r].0 == k);
            }
        } else {
            assert(entries[r].0 == k);
        }
    }
}

/// Entries with the same keys in the same places find every key in the
/// same place.
proof fn lemma_key_index_same_keys(
    a: Seq<(YamlView, YamlView)>,
    b: Seq<(YamlView, YamlView)>,
    k: YamlView,
)
    requires
        a.len() == b.len(),
        forall|i: int| 0 <= i < a.len() ==> #[trigger] a[i].0 == b[i].0,
    ensures
        key_index(a, k) == key_index(b, k),
{
    lemma_key_index(a, k);
    let r = key_index(a, k);
    assert forall|i: int| 0 <= i < b.len() && (r < 0 || i < r) implies b[i].0 != k by {
        assert(a[i].0 == b[i].0);
    }
    if r >= 0 {
        assert(a[r].0 == b[r].0);
    }
    lemma_key_index_is(b, k, r);
}

/// Appending an entry: keys already present stay where they were; the
/// entry's key, if new, is found at the end; other keys stay absent.
proof fn lemma_key_index_push(s: Seq<(YamlView, YamlView)>, x: (YamlView, YamlView), k: YamlView)
    ensures
        key_index(s, k) >= 0 ==> key_index(s.push(x), k) == key_index(s, k),
        key_index(s, k) < 0 && x.0 == k ==> key_index(s.push(x), k) == s.len(),
        key_index(s, k) < 0 && x.0 != k ==> key_index(s.push(x), k) == -1,
{
    lemma_key_index(s, k);
    let t = s.push(x);
    let r = key_index(s, k);
    assert forall|i: int| 0 <= i < s.len() implies #[trigger] t[i] == s[i] by {}
    if r >= 0 {
        lemma_key_index_is(t, k, r);
    } else if x.0 == k {
        lemma_key_index_is(t, k, s.len() as int);
    } else {
        lemma_key_index_is(t, k, -1);
    }
}

/// The keys of a merged mapping: every key of the base and every key of the
/// overlay is there, and no other.
pub proof fn lemma_merge_entries_keys(base: Seq<(YamlView, YamlView)>, overlay: Seq<(YamlView, YamlView)>)
    requires
        merge_entries_spec(base, overlay) is Ok,
    ensures
        ({
            let m = merge_entries_spec(base, overlay)->Ok_0;
            &&& forall|k: YamlView| key_index(base, k) >= 0 ==> #[trigger] key_index(m, k) >= 0
            &&& forall|i: int|
                0 <= i < overlay.len() ==> key_index(m, #[trigger] overlay[i].0) >= 0
            &&& forall|k: YamlView|
                key_index(base, k) < 0 && (forall|i: int|
                    0 <= i < overlay.len() ==> overlay[i].0 != k) ==> #[trigger] key_index(m, k)
                    < 0
        }),
    decreases overlay.len(),
{
    if overlay.len() > 0 {
        let rest = overlay.drop_last();
        lemma_merge_entries_keys(base, rest);
        let cur = merge_entries_spec(base, rest)->Ok_0;
        let m = merge_entries_spec(base, overlay)->Ok_0;
        let k2 = overlay[overlay.len() - 1].0;
        let v2 = overlay[overlay.len() - 1].1;
        let j = key_index(cur, k2);
        lemma_key_index(cur, k2);
        if 0 <= j < cur.len() {
            assert forall|i: int| 0 <= i < m.len() implies #[trigger] m[i].0 == cur[i].0 by {}
            assert forall|k: YamlView| #[trigger] key_index(m, k) == key_index(cur, k) by {
                lemma_key_index_same_keys(m, cur, k);
            }
        } else {
            assert(m == cur.push((k2, v2)));
            assert forall|k: YamlView|
                key_index(cur, k) >= 0 ==> #[trigger] key_index(m, k) == key_index(cur, k) by {
                lemma_key_index_push(cur, (k2, v2), k);
            }
            assert forall|k: YamlView| key_index(cur, k) < 0 && k != k2 implies #[trigger] key_index(
                m,
                k,
            ) < 0 by {
                lemma_key_index_push(cur, (k2, v2), k);
            }
            lemma_key_index_push(cur, (k2, v2), k2);
        }
        assert forall|i: int| 0 <= i < overlay.len() implies key_index(
            m,
            #[trigger] overlay[i].0,
        ) >= 0 by {
            if i < overlay.len() - 1 {
                assert(rest[i] == overlay[i]);
                assert(key_index(cur, rest[i].0) >= 0);
            }
        }
        assert forall|k: YamlView|
            key_index(base, k) < 0 && (forall|i: int| 0 <= i < overlay.len() ==> overlay[i].0 != k)
                implies #[trigger] key_index(m, k) < 0 by {
            assert forall|i: int| 0 <= i < rest.len() implies rest[i].0 != k by {
                assert(rest[i] == overlay[i]);
            }
            assert(key_index(cur, k) < 0);
            assert(overlay[overlay.len() - 1].0 != k);
        }
        assert forall|k: YamlView| key_index(base, k) >= 0 implies #[trigger] key_index(m, k)
            >= 0 by {
            assert(key_index(cur, k) >= 0);
        }
    }
}

/// Merging mappings keeps every key of the base and adds every key of the
/// overlay; a key that only the overlay has, once, comes out with the
/// overlay's value.
pub proof fn law_merge_adds_overlay_keys(
    base: Seq<(YamlView, YamlView)>,
    overlay: Seq<(YamlView, YamlView)>,
    i: int,
)
    requires
        merge_entries_spec(base, overlay) is Ok,
        0 <= i < overlay.len(),
    ensures
        ({
            let m = merge_entries_spec(base, overlay)->Ok_0;
            let k = overlay[i].0;
            &&& key_index(m, k) >= 0
            &&& forall|b: YamlView| key_index(base, b) >= 0 ==> #[trigger] key_index(m, b) >= 0
            &&& (key_index(base, k) < 0 && (forall|j: int|
                0 <= j < overlay.len() && j != i ==> overlay[j].0 != k)) ==> m[key_index(m, k)].1
                == overlay[i].1
        }),
    decreases overlay.len(),
{
    lemma_merge_entries_keys(base, overlay);
    let m = merge_entries_spec(base, overlay)->Ok_0;
    let k = overlay[i].0;
    let n = overlay.len() - 1;
    let rest = overlay.drop_last();
    let cur = merge_entries_spec(base, rest)->Ok_0;
    if key_index(base, k) < 0 && (forall|j: int|
        0 <= j < overlay.len() && j != i ==> overlay[j].0 != k) {
        assert(merge_entries_spec(base, rest) is Ok);
        if i == n {
            lemma_merge_entries_keys(base, rest);
            assert forall|j: int| 0 <= j < rest.len() implies rest[j].0 != k by {
                assert(rest[j] == overlay[j]);
            }
            assert(key_index(cur, k) < 0);
            lemma_key_index(cur, k);
            assert(m == cur.push((k, overlay[i].1)));
            lemma_key_index_push(cur, (k, overlay[i].1), k);
        } else {
            assert(rest[i] == overlay[i]);
            assert forall|j: int| 0 <= j < rest.len() && j != i implies rest[j].0 != k by {
                assert(rest[j] == overlay[j]);
            }
            law_merge_adds_overlay_keys(base, rest, i);
            let p = key_index(cur, k);
            assert(cur[p].1 == overlay[i].1);
            lemma_key_index(cur, k);
            let k2 = overlay[n].0;
            let v2 = overlay[n].1;
            assert(k2 != k);
            let j = key_index(cur, k2);
            lemma_key_index(cur, k2);
            if 0 <= j < cur.len() {
                assert(cur[j].0 == k2);
                assert(j != p);
                assert forall|t: int| 0 <= t < m.len() implies #[trigger] m[t].0 == cur[t].0 by {}
                lemma_key_index_same_keys(m, cur, k);
                assert(m[p] == cur[p]);
            } else {
                assert(m == cur.push((k2, v2)));
                lemma_key_index_push(cur, (k2, v2), k);
                assert(m[p] == cur[p]);
            }
        }
    }
}

/// A merge never moves the base's keys: position `t` of the base holds the
/// same key after it.
proof fn lemma_merge_keeps_key_places(
    base: Seq<(YamlView, YamlView)>,
    overlay: Seq<(YamlView, YamlView)>,
)
    requires
        merge_entries_spec(base, overlay) is Ok,
    ensures
        merge_entries_spec(base, overlay)->Ok_0.len() >= base.len(),
        forall|t: int|
            0 <= t < base.len() ==> (#[trigger] merge_entries_spec(base, overlay)->Ok_0[t]).0
                == base[t].0,
    decreases overlay.len(),
{
    if overlay.len() > 0 {
        let rest = overlay.drop_last();
        lemma_merge_keeps_key_places(base, rest);
        let cur = merge_entries_spec(base, rest)->Ok_0;
        let m = merge_entries_spec(base, overlay)->Ok_0;
        assert forall|t: int| 0 <= t < base.len() implies (#[trigger] m[t]).0 == base[t].0 by {
            assert(cur[t].0 == base[t].0);
        }
    }
}

/// A key that the base has and the overlay mentions once keeps its place,
/// and its value becomes the base value merged with the overlay value.
pub proof fn law_merge_present_key(
    base: Seq<(YamlView, YamlView)>,
    overlay: Seq<(YamlView, YamlView)>,
    i: int,
)
    requires
        merge_entries_spec(base, overlay) is Ok,
        0 <= i < overlay.len(),
        key_index(base, overlay[i].0) >= 0,
        forall|j: int| 0 <= j < overlay.len() && j != i ==> overlay[j].0 != overlay[i].0,
    ensures
        ({
            let k = overlay[i].0;
            let p = key_index(base, k);
            let m = merge_entries_spec(base, overlay)->Ok_0;
            &&& key_index(m, k) == p
            &&& merge_spec(base[p].1, overlay[i].1, as_str_v(k)) is Ok
            &&& m[p] == (k, merge_spec(base[p].1, overlay[i].1, as_str_v(k))->Ok_0)
        }),
    decreases overlay.len(),
{
    let k = overlay[i].0;
    let p = key_index(base, k);
    let n = overlay.len() - 1;
    let rest = overlay.drop_last();
    let m = merge_entries_spec(base, overlay)->Ok_0;
    assert(merge_entries_spec(base, rest) is Ok);
    let cur = merge_entries_spec(base, rest)->Ok_0;
    lemma_key_index(base, k);
    lemma_merge_keeps_key_places(base, rest);
    lemma_merge_keeps_key_places(base, overlay);
    if i == n {
        assert forall|j: int| 0 <= j < rest.len() implies #[trigger] rest[j].0 != base[p].0 by {
            assert(rest[j] == overlay[j]);
        }
        law_merge_keeps_unmentioned(base, rest, p);
        assert forall|t: int| 0 <= t < cur.len() && t < p implies cur[t].0 != k by {
            assert(cur[t].0 == base[t].0);
        }
        lemma_key_index_is(cur, k, p);
        assert(cur[p] == base[p]);
        let mm = merge_spec(cur[p].1, overlay[n].1, as_str_v(k));
        assert(mm is Ok);
        assert(m == cur.update(p, (cur[p].0, mm->Ok_0)));
        assert forall|t: int| 0 <= t < m.len() implies #[trigger] m[t].0 == cur[t].0 by {}
        lemma_key_index_same_keys(m, cur, k);
    } else {
        assert(rest[i] == overlay[i]);
        assert forall|j: int| 0 <= j < rest.len() && j != i implies rest[j].0 != k by {
            assert(rest[j] == overlay[j]);
        }
        law_merge_present_key(base, rest, i);
        let k2 = overlay[n].0;
        let v2 = overlay[n].1;
        assert(k2 != k);
        let j = key_index(cur, k2);
        lemma_key_index(cur, k2);
        if 0 <= j < cur.len() {
            assert(cur[j].0 == k2);
            assert(j != p);
            assert forall|t: int| 0 <= t < m.len() implies #[trigger] m[t].0 == cur[t].0 by {}
            lemma_key_index_same_keys(m, cur, k);
            assert(m[p] == cur[p]);
        } else {
            assert(m == cur.push((k2, v2)));
            lemma_key_index_push(cur, (k2, v2), k);
            assert(m[p] == cur[p]);
        }
    }
}

/// No key appears twice among `entries`.
pub open spec fn keys_unique(entries: Seq<(YamlView, YamlView)>) -> bool {
    forall|a: int, b: int|
        0 <= a < b < entries.len() ==> #[trigger] entries[a].0 != #[trigger] entries[b].0
}

/// Merging into a mapping without repeated keys gives a mapping without
/// repeated keys, however often the overlay names a key.
pub proof fn law_merge_keys_stay_unique(
    base: Seq<(YamlView, YamlView)>,
    overlay: Seq<(YamlView, YamlView)>,
)
    requires
        keys_unique(base),
        merge_entries_spec(base, overlay) is Ok,
    ensures
        keys_unique(merge_entries_spec(base, overlay)->Ok_0),
    decreases overlay.len(),
{
    if overlay.len() > 0 {
        let rest = overlay.drop_last();
        law_merge_keys_stay_unique(base, rest);
        let cur = merge_entries_spec(base, rest)->Ok_0;
        let m = merge_entries_spec(base, overlay)->Ok_0;
        let k2 = overlay[overlay.len() - 1].0;
        let j = key_index(cur, k2);
        lemma_key_index(cur, k2);
        if 0 <= j < cur.len() {
            assert forall|a: int, b: int| 0 <= a < b < m.len() implies #[trigger] m[a].0
                != #[trigger] m[b].0 by {
                assert(m[a].0 == cur[a].0 && m[b].0 == cur[b].0);
            }
        } else {
            assert forall|a: int, b: int| 0 <= a < b < m.len() implies #[trigger] m[a].0
                != #[trigger] m[b].0 by {
                if b < cur.len() {
                    assert(m[a] == cur[a] && m[b] == cur[b]);
                } else {
                    assert(m[a] == cur[a]);
                    assert(m[b].0 == k2);
                }
            }
        }
    }
}

/// Outside the keyed lists, a mapping merged into a mapping is a mapping
/// that keeps every key of the base and holds every key of the overlay; a
/// key that only the overlay has, once, comes out with the overlay's value.
pub proof fn law_mapping_merge_adds_keys(
    base: Seq<(YamlView, YamlView)>,
    overlay: Seq<(YamlView, YamlView)>,
    field: Option<Seq<char>>,
    i: int,
)
    requires
        match field {
            Some(f) => identity_key(f) is None,
            None => true,
        },
        merge_spec(YamlView::Mapping(base), YamlView::Mapping(overlay), field) is Ok,
        0 <= i < overlay.len(),
    ensures
        merge_spec(YamlView::Mapping(base), YamlView::Mapping(overlay), field)->Ok_0 matches YamlView::Mapping(m)
            && key_index(m, overlay[i].0) >= 0
            && (forall|b: YamlView| key_index(base, b) >= 0 ==> #[trigger] key_index(m, b) >= 0)
            && ((key_index(base, overlay[i].0) < 0 && (forall|j: int|
                0 <= j < overlay.len() && j != i ==> overlay[j].0 != overlay[i].0)) ==> m[key_index(
                m,
                overlay[i].0,
            )].1 == overlay[i].1),
{
    law_merge_adds_overlay_keys(base, overlay, i);
}

/// Overlaying `{field: []}` on a mapping that has `field`, for a keyed
/// list, leaves that entry an empty list.
pub proof fn law_document_empty_keyed_list(base: Seq<(YamlView, YamlView)>, field: Seq<char>)
    requires
        identity_key(field) is Some,
        key_index(base, YamlView::Str(field)) >= 0,
    ensures
        ({
            let overlay = seq![(YamlView::Str(field), YamlView::Sequence(Seq::empty()))];
            let j = key_index(base, YamlView::Str(field));
            &&& merge_spec(YamlView::Mapping(base), YamlView::Mapping(overlay), None) is Ok
            &&& merge_spec(YamlView::Mapping(base), YamlView::Mapping(overlay), None)->Ok_0
                matches YamlView::Mapping(m) && m[j] == (
                YamlView::Str(field),
                YamlView::Sequence(Seq::<YamlView>::empty()),
            )
        }),
{
    let overlay = seq![(YamlView::Str(field), YamlView::Sequence(Seq::empty()))];
    lemma_key_index(base, YamlView::Str(field));
    assert(overlay.drop_last() =~= Seq::<(YamlView, YamlView)>::empty());
    assert(as_str_v(YamlView::Str(field)) == Some(field));
    let j = key_index(base, YamlView::Str(field));
    assert(merge_entries_spec(base, overlay.drop_last()) == Ok::<
        Seq<(YamlView, YamlView)>,
        Seq<char>,
    >(base));
    assert(merge_spec(base[j].1, YamlView::Sequence(Seq::empty()), Some(field)) == Ok::<
        YamlView,
        Seq<char>,
    >(YamlView::Sequence(Seq::empty())));
    let merged = base.update(j, (base[j].0, YamlView::Sequence(Seq::<YamlView>::empty())));
    assert(merge_entries_spec(base, overlay) == Ok::<Seq<(YamlView, YamlView)>, Seq<char>>(merged));
}

/// A keyed-list patch merges into the item with its identity: the item
/// stays in its place, and the item's fields that the patch does not
/// mention keep their values.
pub proof fn law_keyed_patch_keeps_fields(
    items: Seq<YamlView>,
    entries: Seq<(YamlView, YamlView)>,
    fields: Seq<(YamlView, YamlView)>,
    id: Seq<char>,
    j: int,
    k: int,
)
    requires
        0 <= j < items.len(),
        items[j] == YamlView::Mapping(entries),
        0 <= k < entries.len(),
        entry_identity(YamlView::Mapping(fields), id) is Some,
        item_index(items, id, entry_identity(YamlView::Mapping(fields), id)->Some_0) == j,
        forall|i: int| 0 <= i < fields.len() ==> #[trigger] fields[i].0 != entries[k].0,
        merge_patches_spec(items, seq![YamlView::Mapping(fields)], id) is Ok,
    ensures
        ({
            let merged = merge_patches_spec(items, seq![YamlView::Mapping(fields)], id)->Ok_0;
            &&& merged.len() == items.len()
            &&& merged[j] matches YamlView::Mapping(m) && m[k] == entries[k]
        }),
{
    let patch = YamlView::Mapping(fields);
    let patches = seq![patch];
    assert(patches.drop_last() =~= Seq::<YamlView>::empty());
    assert(merge_patches_spec(items, patches.drop_last(), id) == Ok::<Seq<YamlView>, Seq<char>>(
        items,
    ));
    lemma_item_index(items, id, entry_identity(patch, id)->Some_0);
    assert(merge_spec(items[j], patch, None) == match merge_entries_spec(entries, fields) {
        Ok(e) => Ok::<YamlView, Seq<char>>(YamlView::Mapping(e)),
        Err(x) => Err(x),
    });
    assert(merge_entries_spec(entries, fields) is Ok);
    law_merge_keeps_unmentioned(entries, fields, k);
}

} // verus!
