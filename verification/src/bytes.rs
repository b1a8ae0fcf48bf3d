//! Byte-level text helpers shared by the reconciler and the query facade.
//!
//! Stored fields are kept as UTF-8 byte strings. Because every delimiter and
//! keyword the pipeline cares about is ASCII, byte-level operations agree with
//! the character-level reading of the data.
use vstd::prelude::*;

verus! {

/// ASCII lower-casing of one byte; all other bytes are unchanged.
pub open spec fn lower_byte(b: u8) -> u8 {
    if 65 <= b <= 90 {
        (b + 32) as u8
    } else {
        b
    }
}

/// ASCII lower-casing of a byte string.
pub open spec fn lower_bytes(s: Seq<u8>) -> Seq<u8> {
    s.map_values(|b: u8| lower_byte(b))
}

/// ASCII lower-casing, as the reconciler applies it to user names and to the
/// origin account captured from the transcript header.
pub fn to_ascii_lower(v: &Vec<u8>) -> (r: Vec<u8>)
    ensures
        r@ == lower_bytes(v@),
{
    let mut r: Vec<u8> = Vec::new();
    let mut i: usize = 0;
    while i < v.len()
        invariant
            i <= v.len(),
            r@ == lower_bytes(v@.subrange(0, i as int)),
        decreases v.len() - i,
    {
        let b = v[i];
        if 65 <= b && b <= 90 {
            r.push(b + 32);
        } else {
            r.push(b);
        }
        proof {
            assert(v@.subrange(0, i + 1 as int).drop_last() =~= v@.subrange(0, i as int));
            assert(lower_bytes(v@.subrange(0, i + 1 as int)) =~= lower_bytes(
                v@.subrange(0, i as int),
            ).push(lower_byte(v@[i as int])));
        }
        i = i + 1;
    }
    proof {
        assert(v@.subrange(0, v@.len() as int) =~= v@);
    }
    r
}

/// Exact equality of two byte strings.
pub fn bytes_eq(a: &Vec<u8>, b: &Vec<u8>) -> (r: bool)
    ensures
        r == (a@ == b@),
{
    if a.len() != b.len() {
        proof {
            assert(a@ != b@);
        }
        return false;
    }
    let mut i: usize = 0;
    while i < a.len()
        invariant
            i <= a.len(),
            a@.len() == b@.len(),
            forall|j: int| 0 <= j < i ==> a@[j] == b@[j],
        decreases a.len() - i,
    {
        if a[i] != b[i] {
            return false;
        }
        i = i + 1;
    }
    proof {
        assert(a@ =~= b@);
    }
    true
}

/// ASCII-case-insensitive equality of two byte strings: how the user-name
/// filter compares a normalized query name against a stored one.
pub fn bytes_eq_ci(a: &Vec<u8>, b: &Vec<u8>) -> (r: bool)
    ensures
        r == (lower_bytes(a@) == lower_bytes(b@)),
{
    if a.len() != b.len() {
        proof {
            assert(lower_bytes(a@).len() != lower_bytes(b@).len());
        }
        return false;
    }
    let mut i: usize = 0;
    while i < a.len()
        invariant
            i <= a.len(),
            a@.len() == b@.len(),
            forall|j: int| 0 <= j < i ==> lower_byte(a@[j]) == lower_byte(b@[j]),
        decreases a.len() - i,
    {
        let x = a[i];
        let y = b[i];
        let xl = if 65 <= x && x <= 90 {
            x + 32
        } else {
            x
        };
        let yl = if 65 <= y && y <= 90 {
            y + 32
        } else {
            y
        };
        if xl != yl {
            proof {
                assert(lower_bytes(a@)[i as int] != lower_bytes(b@)[i as int]);
            }
            return false;
        }
        i = i + 1;
    }
    proof {
        assert(lower_bytes(a@) =~= lower_bytes(b@));
    }
    true
}

/// The keyword matches the contents at position `i`: the next `k.len()` bytes
/// of `c`, lower-cased, are the lower-cased keyword. Every byte of the keyword
/// counts literally; no byte acts as a wildcard.
pub open spec fn matches_at(c: Seq<u8>, k: Seq<u8>, i: int) -> bool {
    &&& 0 <= i
    &&& i + k.len() <= c.len()
    &&& lower_bytes(c.subrange(i, i + k.len())) == lower_bytes(k)
}

/// ASCII-case-insensitive literal substring containment, the meaning of the
/// keyword filter. A `%` in the keyword is an ordinary byte here, so it can
/// only ever match a literal `%` in the contents.
pub open spec fn contains_ci(c: Seq<u8>, k: Seq<u8>) -> bool {
    exists|i: int| matches_at(c, k, i)
}

/// Whether the keyword matches the contents starting at position `i`.
fn matches_at_exec(c: &Vec<u8>, k: &Vec<u8>, i: usize) -> (r: bool)
    requires
        i + k@.len() <= c@.len(),
    ensures
        r == matches_at(c@, k@, i as int),
{
    let clen = c.len();
    let mut j: usize = 0;
    while j < k.len()
        invariant
            j <= k.len(),
            i + k@.len() <= c@.len(),
            c@.len() == clen,
            forall|t: int| 0 <= t < j ==> lower_byte(c@[i + t]) == lower_byte(k@[t]),
        decreases k.len() - j,
    {
        let x = c[i + j];
        let y = k[j];
        let xl = if 65 <= x && x <= 90 {
            x + 32
        } else {
            x
        };
        let yl = if 65 <= y && y <= 90 {
            y + 32
        } else {
            y
        };
        if xl != yl {
            proof {
                assert(lower_bytes(c@.subrange(i as int, i + k@.len()))[j as int] != lower_bytes(
                    k@,
                )[j as int]);
            }
            return false;
        }
        j = j + 1;
    }
    proof {
        assert(lower_bytes(c@.subrange(i as int, i + k@.len())) =~= lower_bytes(k@));
    }
    true
}

/// ASCII-case-insensitive literal substring search.
pub fn contains_ci_exec(c: &Vec<u8>, k: &Vec<u8>) -> (r: bool)
    ensures
        r == contains_ci(c@, k@),
{
    if k.len() > c.len() {
        proof {
            assert(forall|i: int| !matches_at(c@, k@, i));
        }
        return false;
    }
    if k.len() == 0 {
        proof {
            assert(matches_at(c@, k@, 0)) by {
                assert(lower_bytes(c@.subrange(0, 0)) =~= lower_bytes(k@));
            }
        }
        return true;
    }
    let clen = c.len();
    let last = clen - k.len();
    let mut i: usize = 0;
    loop
        invariant
            i <= last + 1,
            1 <= k@.len(),
            c@.len() == clen,
            last == c@.len() - k@.len(),
            forall|t: int| 0 <= t < i ==> !matches_at(c@, k@, t),
        decreases last + 1 - i,
    {
        if i > last {
            proof {
                assert(forall|t: int| t > last ==> !matches_at(c@, k@, t));
            }
            return false;
        }
        if matches_at_exec(c, k, i) {
            return true;
        }
        i = i + 1;
    }
}

/// Position of the last occurrence of `b` in `s`, or a negative number when
/// `b` does not occur.
pub open spec fn last_byte_pos(s: Seq<u8>, b: u8) -> int
    decreases s.len(),
{
    if s.len() == 0 {
        -1
    } else if s[s.len() - 1] == b {
        s.len() - 1
    } else {
        last_byte_pos(s.drop_last(), b)
    }
}

/// Extension of a relative path: the bytes after the last `.` of the last
/// `/`-separated component, and empty when that component has no `.`, when
/// the `.` is its first byte (a hidden file), or when nothing follows it.
pub open spec fn path_extension(s: Seq<u8>) -> Seq<u8> {
    let comp = s.subrange(last_byte_pos(s, 47) + 1, s.len() as int);
    let d = last_byte_pos(comp, 46);
    if d <= 0 {
        Seq::empty()
    } else {
        comp.subrange(d + 1, comp.len() as int)
    }
}

/// Position right after the last occurrence of `b` in `s[from..]`, or `from`
/// when `b` does not occur there.
fn find_after_last(s: &Vec<u8>, from: usize, b: u8) -> (r: usize)
    requires
        from <= s@.len(),
    ensures
        from <= r <= s@.len(),
        r as int == last_byte_pos(s@.subrange(from as int, s@.len() as int), b) + 1 + from,
{
    let mut i: usize = s.len();
    while i > from
        invariant
            from <= i <= s@.len(),
            last_byte_pos(s@.subrange(from as int, s@.len() as int), b) == last_byte_pos(
                s@.subrange(from as int, i as int),
                b,
            ),
        decreases i,
    {
        if s[i - 1] == b {
            proof {
                assert(s@.subrange(from as int, i as int)[i - 1 - from] == b);
                assert(last_byte_pos(s@.subrange(from as int, i as int), b) == i - 1 - from);
            }
            return i;
        }
        proof {
            assert(s@.subrange(from as int, i as int).drop_last() =~= s@.subrange(
                from as int,
                i - 1,
            ));
        }
        i = i - 1;
    }
    proof {
        assert(s@.subrange(from as int, from as int) =~= Seq::<u8>::empty());
    }
    from
}

/// Extension of a relative path, as [`path_extension`] gives it.
pub fn path_extension_exec(s: &Vec<u8>) -> (r: Vec<u8>)
    ensures
        r@ == path_extension(s@),
{
    let comp_start = find_after_last(s, 0, 47);
    proof {
        assert(s@.subrange(0, s@.len() as int) =~= s@);
    }
    let ghost comp = s@.subrange(comp_start as int, s@.len() as int);
    let d_after = find_after_last(s, comp_start, 46);
    if d_after - comp_start <= 1 {
        proof {
            assert(last_byte_pos(comp, 46) <= 0);
        }
        return Vec::new();
    }
    let mut r: Vec<u8> = Vec::new();
    let mut i: usize = d_after;
    while i < s.len()
        invariant
            d_after <= i <= s@.len(),
            r@ == s@.subrange(d_after as int, i as int),
        decreases s@.len() - i,
    {
        r.push(s[i]);
        proof {
            assert(s@.subrange(d_after as int, i + 1 as int) =~= s@.subrange(
                d_after as int,
                i as int,
            ).push(s@[i as int]));
        }
        i = i + 1;
    }
    proof {
        let dd = last_byte_pos(comp, 46);
        assert(dd == d_after - 1 - comp_start);
        assert(r@ =~= comp.subrange(dd + 1, comp.len() as int));
    }
    r
}

/// Copy of a byte string; spelled out so that the copy's contents are known.
pub fn clone_bytes(v: &Vec<u8>) -> (r: Vec<u8>)
    ensures
        r@ == v@,
{
    let mut r: Vec<u8> = Vec::new();
    let mut i: usize = 0;
    while i < v.len()
        invariant
            i <= v.len(),
            r@ == v@.subrange(0, i as int),
        decreases v.len() - i,
    {
        r.push(v[i]);
        proof {
            assert(v@.subrange(0, i + 1 as int) =~= v@.subrange(0, i as int).push(v@[i as int]));
        }
        i = i + 1;
    }
    proof {
        assert(v@.subrange(0, v@.len() as int) =~= v@);
    }
    r
}

} // verus!
