use vstd::prelude::*;

verus! {

/// A structured host response: the dynamically typed value the command
/// channel hands back, as a tagged union with explicit, fallible access.
/// Queries read only unsigned integers, sequences and mappings; every
/// other shape is carried as `Other` and fails extraction.
pub enum HostValue {
    /// An unsigned integer.
    Num(u64),
    /// A text value, as raw bytes.
    Text(Vec<u8>),
    /// A sequence of values, in response order.
    List(Vec<HostValue>),
    /// A mapping, in response order.
    Object(Vec<ObjField>),
    /// A value no query reads: null, a boolean, or a number that is not an
    /// unsigned 64-bit integer.
    Other,
}

/// One field of a mapping-shaped host response.
pub struct ObjField {
    pub key: Vec<u8>,
    pub value: HostValue,
}

/// The value under `key`, taking the first field that carries it. A host
/// mapping never repeats a key, so the first match is the only one.
pub open spec fn spec_get(fields: Seq<ObjField>, key: Seq<u8>) -> Option<HostValue>
    decreases fields.len(),
{
    if fields.len() == 0 {
        None
    } else if fields[0].key@ == key {
        Some(fields[0].value)
    } else {
        spec_get(fields.skip(1), key)
    }
}

/// The two byte slices hold the same bytes.
pub fn bytes_eq(a: &[u8], b: &[u8]) -> (r: bool)
    ensures
        r == (a@ == b@),
{
    if a.len() != b.len() {
        return false;
    }
    let n = a.len();
    let mut i: usize = 0;
    while i < n
        invariant
            i <= n,
            n == a@.len(),
            a@.len() == b@.len(),
            forall|j: int| 0 <= j < i ==> a@[j] == #[trigger] b@[j],
        decreases n - i,
    {
        if a[i] != b[i] {
            return false;
        }
        i = i + 1;
    }
    proof {
        assert(a@ =~= b@);
    }
    true
}

impl HostValue {
    /// Look `key` up in a mapping-shaped value; anything but a mapping has
    /// no fields to search.
    pub fn get<'a>(&'a self, key: &[u8]) -> (r: Option<&'a HostValue>)
        ensures
            (match *self {
                HostValue::Object(fields) => match spec_get(fields@, key@) {
                    Some(v) => r is Some && *r.unwrap() == v,
                    None => r is None,
                },
                _ => r is None,
            }),
    {
        match self {
            HostValue::Object(fields) => {
                let n = fields.len();
                let mut i: usize = 0;
                proof {
                    assert(fields@.skip(0) =~= fields@);
                }
                while i < n
                    invariant
                        *self == HostValue::Object(*fields),
                        i <= n,
                        n == fields@.len(),
                        spec_get(fields@, key@) == spec_get(fields@.skip(i as int), key@),
                    decreases n - i,
                {
                    proof {
                        assert(fields@.skip(i as int)[0] == fields@[i as int]);
                        assert(fields@.skip(i as int).skip(1) =~= fields@.skip(i as int + 1));
                    }
                    if bytes_eq(fields[i].key.as_slice(), key) {
                        proof {
                            assert(spec_get(fields@.skip(i as int), key@) == Some(
                                fields@[i as int].value,
                            ));
                        }
                        return Some(&fields[i].value);
                    }
                    i = i + 1;
                }
                None
            },
            _ => None,
        }
    }
}

} // verus!
