use vstd::prelude::*;

verus! {

/// The generic tree an external deserializer hands over: the shape of a
/// structured document, with numbers kept as their literal text so that no
/// precision is lost before translation.
#[derive(Debug)]
pub enum DocValue {
    Null,
    Bool(bool),
    Number(String),
    Text(String),
    List(Vec<DocValue>),
    Object(Vec<(String, DocValue)>),
}

/// The first value under `key`, searching entries in document order.
pub open spec fn obj_get(es: Seq<(String, DocValue)>, key: Seq<char>) -> Option<DocValue>
    decreases es.len(),
{
    if es.len() == 0 {
        None
    } else if es[0].0@ == key {
        Some(es[0].1)
    } else {
        obj_get(es.drop_first(), key)
    }
}

pub fn str_eq(a: &str, b: &str) -> (r: bool)
    ensures
        r == (a@ == b@),
{
    let n: usize = a.unicode_len();
    let m: usize = b.unicode_len();
    if n != m {
        return false;
    }
    let mut i: usize = 0;
    while i < n
        invariant
            i <= n,
            n == a@.len(),
            n == b@.len(),
            forall|j: int| 0 <= j < i ==> a@[j] == b@[j],
        decreases n - i,
    {
        if a.get_char(i) != b.get_char(i) {
            return false;
        }
        i = i + 1;
    }
    proof {
        assert(a@ =~= b@);
    }
    true
}

/// Looks a key up in an object's entries; the result is the index of the
/// first entry with that key.
#[verifier::loop_isolation(false)]
pub fn find_key(es: &Vec<(String, DocValue)>, key: &str) -> (r: Option<usize>)
    ensures
        match r {
            Some(i) => i < es@.len() && es@[i as int].0@ == key@ && obj_get(es@, key@)
                == Some(es@[i as int].1),
            None => obj_get(es@, key@) is None,
        },
{
    let n: usize = es.len();
    let mut i: usize = 0;
    proof {
        assert(es@.skip(0) =~= es@);
    }
    while i < n
        invariant
            i <= n,
            n == es@.len(),
            forall|j: int| 0 <= j < i ==> es@[j].0@ != key@,
            obj_get(es@.skip(i as int), key@) == obj_get(es@, key@),
        decreases n - i,
    {
        if str_eq(es[i].0.as_str(), key) {
            proof {
                assert(es@.skip(i as int)[0] == es@[i as int]);
            }
            return Some(i);
        }
        proof {
            assert(es@.skip(i as int).drop_first() =~= es@.skip(i as int + 1));
        }
        i = i + 1;
    }
    proof {
        assert(es@.skip(n as int) =~= Seq::<(String, DocValue)>::empty());
    }
    None
}

} // verus!
