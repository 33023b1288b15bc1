//! Reading a value out of a JSON response by a dotted path, as the API
//! answers are read: each key is an array position when it reads as a
//! number, else an object key.
use vstd::prelude::*;

use crate::text::{decimal_parse, parse_decimal, push_char};

verus! {

/// A JSON value; a number is kept as its text.
#[derive(Debug)]
pub enum Json {
    Null,
    Bool(bool),
    Number(String),
    Str(String),
    Array(Vec<Json>),
    Object(Vec<(String, Json)>),
}

/// The keys of a dotted path: the text between the dots, in order (one
/// empty key for an empty path).
pub open spec fn path_keys(path: Seq<char>) -> Seq<Seq<char>>
    decreases path.len(),
{
    if path.len() == 0 {
        seq![Seq::empty()]
    } else {
        let keys = path_keys(path.drop_last());
        if path.last() == '.' {
            keys.push(Seq::empty())
        } else {
            keys.update(keys.len() - 1, keys.last().push(path.last()))
        }
    }
}

/// The value last given for `key` in an object's entries, if any.
pub open spec fn entry_value(entries: Seq<(String, Json)>, key: Seq<char>) -> Option<Json>
    decreases entries.len(),
{
    if entries.len() == 0 {
        None
    } else if entries.last().0@ == key {
        Some(entries.last().1)
    } else {
        entry_value(entries.drop_last(), key)
    }
}

/// A value that a key may be applied to: an object, an array or a string.
pub open spec fn indexable(v: Json) -> bool {
    v is Object || v is Array || v is Str
}

/// `v[key]`: when the key reads as a position, the array's element there;
/// otherwise the object's value for the key; null when there is none.
pub open spec fn index_json(v: Json, key: Seq<char>) -> Json {
    match decimal_parse(key, usize::MAX as int) {
        Some(k) => match v {
            Json::Array(a) => if k < a@.len() {
                a@[k]
            } else {
                Json::Null
            },
            _ => Json::Null,
        },
        None => match v {
            Json::Object(o) => match entry_value(o@, key) {
                Some(x) => x,
                None => Json::Null,
            },
            _ => Json::Null,
        },
    }
}

/// The value reached from `v` by `keys`; nothing when a key is applied to a
/// value that is neither an object, an array nor a string.
pub open spec fn walk(v: Json, keys: Seq<Seq<char>>) -> Option<Json>
    decreases keys.len(),
{
    if keys.len() == 0 {
        Some(v)
    } else if !indexable(v) {
        None
    } else {
        walk(index_json(v, keys[0]), keys.drop_first())
    }
}

/// The keys of a dotted path.
pub fn split_path(path: &str) -> (keys: Vec<String>)
    ensures
        keys@.len() == path_keys(path@).len(),
        forall|i: int| 0 <= i < keys@.len() ==> #[trigger] keys@[i]@ == path_keys(path@)[i],
{
    let n = path.unicode_len();
    let mut keys: Vec<String> = Vec::new();
    let mut cur = String::new();
    let mut i: usize = 0;
    assert(path@.take(0) =~= Seq::<char>::empty());
    while i < n
        invariant
            i <= n,
            n == path@.len(),
            keys@.len() + 1 == path_keys(path@.take(i as int)).len(),
            forall|j: int| 0 <= j < keys@.len() ==> #[trigger] keys@[j]@ == path_keys(path@.take(i as int))[j],
            cur@ == path_keys(path@.take(i as int)).last(),
        decreases n - i,
    {
        let c = path.get_char(i);
        let ghost before = path_keys(path@.take(i as int));
        assert(path@.take(i + 1).drop_last() =~= path@.take(i as int));
        assert(path@.take(i + 1).last() == c);
        if c == '.' {
            let done = cur;
            keys.push(done);
            cur = String::new();
        } else {
            push_char(&mut cur, c);
        }
        i = i + 1;
        assert forall|j: int| 0 <= j < keys@.len() implies #[trigger] keys@[j]@ == path_keys(path@.take(i as int))[j] by {
            if j < before.len() - 1 {
                assert(keys@[j]@ == before[j]);
            }
        }
    }
    assert(path@.take(n as int) =~= path@);
    keys.push(cur);
    keys
}

/// The value last given for `key` in an object's entries.
fn find_entry<'a>(entries: &'a Vec<(String, Json)>, key: &String) -> (r: Option<&'a Json>)
    ensures
        match r {
            Some(x) => entry_value(entries@, key@) == Some(*x),
            None => entry_value(entries@, key@) is None,
        },
{
    let mut i = entries.len();
    assert(entries@.take(i as int) =~= entries@);
    while i > 0
        invariant
            i <= entries@.len(),
            entry_value(entries@, key@) == entry_value(entries@.take(i as int), key@),
        decreases i,
    {
        i = i - 1;
        assert(entries@.take(i + 1).drop_last() =~= entries@.take(i as int));
        assert(entries@.take(i + 1).last() == entries@[i as int]);
        if entries[i].0 == *key {
            return Some(&entries[i].1);
        }
    }
    None
}

/// The value reached from `value` by the keys of a dotted `path`; an error
/// when a key is applied to a value that is neither an object, an array
/// nor a string.
pub fn json_path<'a>(value: &'a Json, path: &str) -> (r: Result<&'a Json, ()>)
    ensures
        match r {
            Ok(x) => walk(*value, path_keys(path@)) == Some(*x),
            Err(_) => walk(*value, path_keys(path@)) is None,
        },
{
    let keys = split_path(path);
    let ghost all = path_keys(path@);
    assert(keys@.len() == all.len());
    let mut v: &Json = value;
    let mut i: usize = 0;
    assert(all.skip(0) =~= all);
    while i < keys.len()
        invariant
            i <= keys@.len(),
            all == path_keys(path@),
            keys@.len() == all.len(),
            forall|j: int| 0 <= j < keys@.len() ==> #[trigger] keys@[j]@ == all[j],
            walk(*value, all) == walk(*v, all.skip(i as int)),
        decreases keys@.len() - i,
    {
        let ghost rest = all.skip(i as int);
        assert(rest[0] == all[i as int]);
        assert(rest.drop_first() =~= all.skip(i + 1));
        match v {
            Json::Object(_) | Json::Array(_) | Json::Str(_) => {},
            _ => {
                assert(!indexable(*v));
                assert(walk(*v, rest) is None);
                return Err(());
            },
        }
        let key = &keys[i];
        assert(key@ == all[i as int]);
        let next: &Json = match parse_decimal(key.as_str(), usize::MAX as u128) {
            Some(k) => match v {
                Json::Array(a) => {
                    if k < a.len() as u128 {
                        &a[k as usize]
                    } else {
                        &Json::Null
                    }
                },
                _ => &Json::Null,
            },
            None => match v {
                Json::Object(o) => match find_entry(o, key) {
                    Some(x) => x,
                    None => &Json::Null,
                },
                _ => &Json::Null,
            },
        };
        assert(*next == index_json(*v, all[i as int]));
        v = next;
        i = i + 1;
    }
    assert(all.skip(i as int) =~= Seq::<Seq<char>>::empty());
    Ok(v)
}

proof fn lemma_path_keys_nonempty(path: Seq<char>)
    ensures
        path_keys(path).len() >= 1,
    decreases path.len(),
{
    if path.len() > 0 {
        lemma_path_keys_nonempty(path.drop_last());
    }
}

proof fn lemma_path_keys_join(p: Seq<char>, q: Seq<char>)
    ensures
        path_keys(p + seq!['.'] + q) == path_keys(p) + path_keys(q),
    decreases q.len(),
{
    let s = p + seq!['.'] + q;
    if q.len() == 0 {
        assert(s.drop_last() =~= p);
        assert(path_keys(q) =~= seq![Seq::<char>::empty()]);
        assert(path_keys(s) =~= path_keys(p) + path_keys(q));
    } else {
        lemma_path_keys_join(p, q.drop_last());
        lemma_path_keys_nonempty(q.drop_last());
        assert(s.drop_last() =~= p + seq!['.'] + q.drop_last());
        assert(s.last() == q.last());
        let a = path_keys(p);
        let b = path_keys(q.drop_last());
        if q.last() == '.' {
            assert(path_keys(s) =~= a + b.push(Seq::empty()));
        } else {
            assert((a + b).last() == b.last());
            assert(path_keys(s) =~= a + b.update(b.len() - 1, b.last().push(q.last())));
        }
    }
}

proof fn lemma_walk_append(v: Json, a: Seq<Seq<char>>, b: Seq<Seq<char>>)
    ensures
        walk(v, a + b) == match walk(v, a) {
            Some(w) => walk(w, b),
            None => None,
        },
    decreases a.len(),
{
    if a.len() > 0 {
        assert((a + b)[0] == a[0]);
        assert((a + b).drop_first() =~= a.drop_first() + b);
        lemma_walk_append(index_json(v, a[0]), a.drop_first(), b);
    } else {
        assert(a + b =~= b);
    }
}

/// Walking the joined path `p.q` is walking `p` and then `q` from where it
/// ends; when `p` cannot be walked, neither can `p.q`.
pub proof fn law_path_walks_join(v: Json, p: Seq<char>, q: Seq<char>)
    ensures
        walk(v, path_keys(p + seq!['.'] + q)) == match walk(v, path_keys(p)) {
            Some(w) => walk(w, path_keys(q)),
            None => None,
        },
{
    lemma_path_keys_join(p, q);
    lemma_walk_append(v, path_keys(p), path_keys(q));
}

} // verus!
