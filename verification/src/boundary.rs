//! The guest side of the boundary call surface: a context object holding
//! the last received value, and the operations a peer invokes across the
//! trust boundary.
//!
//! Each operation here is the computing part of a boundary export; the
//! presentation around it (logging, formatting of float dimensions) stays
//! with the embedding program. Figure dimensions are carried as whole
//! units, the plain values the checksum logic reads.

use vstd::prelude::*;
use vstd::wrapping::u32_specs::wrapping_add;
use vstd::wrapping::u32_specs::wrapping_mul;

verus! {

/// A closed three-way error code.
#[derive(Clone, Copy, Debug, PartialEq, Eq, Structural)]
pub enum Color {
    Red,
    Green,
    Blue,
}

/// Three named permission flags; presence of each is independent.
#[derive(Clone, Copy, Debug, PartialEq, Eq, Structural)]
pub struct Permissions {
    pub read: bool,
    pub write: bool,
    pub execute: bool,
}

/// A sample record: a scalar, a string and a list of scalars.
#[derive(Debug, PartialEq)]
pub struct UserData {
    pub a: u32,
    /// UTF-8 bytes of the name.
    pub b: Vec<u8>,
    pub c: Vec<u32>,
}

/// A closed tagged union with dimensions in whole units.
#[derive(Clone, Copy, Debug, PartialEq, Eq, Structural)]
pub enum Figure {
    Circle(u32),
    Rect(u32, u32),
}

/// A record exercising nesting: optional flags, child records and a
/// result-wrapped variant.
#[derive(Debug, PartialEq)]
pub struct ComplexRecord {
    pub id: Vec<u8>,
    pub permissions: Option<Permissions>,
    pub child_data: Vec<UserData>,
    pub shape_info: Result<Figure, Color>,
}

/// The guest's explicit context: the last value a call stored.
pub struct Guest {
    pub last: Vec<u8>,
}

/// The reply prefix `"Guest says: "` as UTF-8 bytes.
pub open spec fn reply_prefix() -> Seq<u8> {
    seq![71u8, 117u8, 101u8, 115u8, 116u8, 32u8, 115u8, 97u8, 121u8, 115u8, 58u8, 32u8]
}

/// The flag names, in declared order, as UTF-8 bytes.
pub open spec fn read_name() -> Seq<u8> {
    seq![114u8, 101u8, 97u8, 100u8]
}

pub open spec fn write_name() -> Seq<u8> {
    seq![119u8, 114u8, 105u8, 116u8, 101u8]
}

pub open spec fn execute_name() -> Seq<u8> {
    seq![101u8, 120u8, 101u8, 99u8, 117u8, 116u8, 101u8]
}

/// The names of the flags present in `p`, in declared flag order.
pub open spec fn perm_names(p: Permissions) -> Seq<Seq<u8>> {
    (if p.read {
        seq![read_name()]
    } else {
        Seq::empty()
    }) + (if p.write {
        seq![write_name()]
    } else {
        Seq::empty()
    }) + (if p.execute {
        seq![execute_name()]
    } else {
        Seq::empty()
    })
}

/// The names of a user list, in order.
pub open spec fn user_names(s: Seq<UserData>) -> Seq<Seq<u8>> {
    Seq::new(s.len(), |i: int| s[i].b@)
}

/// The byte sequences a list of byte vectors holds, in order.
pub open spec fn names_view(s: Seq<Vec<u8>>) -> Seq<Seq<u8>> {
    Seq::new(s.len(), |i: int| s[i]@)
}

/// The wrapped 32-bit sum of the checksum contributions of the children
/// from position `k` on: each child adds its `a`.
pub open spec fn child_sum(s: Seq<UserData>, k: int, acc: u32) -> u32
    decreases s.len() - k,
{
    if k < 0 || k >= s.len() {
        acc
    } else {
        child_sum(s, k + 1, wrapping_add(acc, s[k].a))
    }
}

/// What the complex-record checksum is: the id length, a bonus of 100 for
/// a write permission, 1000 per child plus each child's `a`, and a
/// circle's radius units, all summed with 32-bit wraparound.
pub open spec fn checksum_of(r: ComplexRecord) -> u32 {
    let s0 = r.id@.len() as u32;
    let s1 = match r.permissions {
        Some(p) => if p.write {
            wrapping_add(s0, 100)
        } else {
            s0
        },
        None => s0,
    };
    let s2 = wrapping_add(s1, wrapping_mul(r.child_data@.len() as u32, 1000));
    let s3 = child_sum(r.child_data@, 0, s2);
    match r.shape_info {
        Ok(Figure::Circle(u)) => wrapping_add(s3, u),
        _ => s3,
    }
}

/// Copies a byte vector.
fn copy_bytes(src: &Vec<u8>) -> (r: Vec<u8>)
    ensures
        r@ == src@,
{
    let mut r: Vec<u8> = Vec::new();
    let mut i: usize = 0;
    while i < src.len()
        invariant
            i <= src@.len(),
            r@ == src@.take(i as int),
        decreases src@.len() - i,
    {
        r.push(src[i]);
        i = i + 1;
        proof {
            assert(r@ =~= src@.take(i as int));
        }
    }
    proof {
        assert(src@.take(src@.len() as int) =~= src@);
    }
    r
}

impl Guest {
    pub fn new() -> (r: Guest)
        ensures
            r.last@.len() == 0,
    {
        Guest { last: Vec::new() }
    }

    /// Stores the received string in the guest's context. The embedding
    /// program logs the event; nothing else happens here.
    pub fn process_string(&mut self, s: Vec<u8>)
        ensures
            final(self).last@ == s@,
    {
        self.last = s;
    }

    /// The string echoed back with the guest's reply prefix.
    pub fn roundtrip_string(s: &Vec<u8>) -> (r: Vec<u8>)
        ensures
            r@ == reply_prefix() + s@,
    {
        let mut r: Vec<u8> = Vec::new();
        r.push(71);
        r.push(117);
        r.push(101);
        r.push(115);
        r.push(116);
        r.push(32);
        r.push(115);
        r.push(97);
        r.push(121);
        r.push(115);
        r.push(58);
        r.push(32);
        proof {
            assert(r@ =~= reply_prefix());
        }
        let mut i: usize = 0;
        while i < s.len()
            invariant
                i <= s@.len(),
                r@ == reply_prefix() + s@.take(i as int),
            decreases s@.len() - i,
        {
            r.push(s[i]);
            i = i + 1;
            proof {
                assert(r@ =~= reply_prefix() + s@.take(i as int));
            }
        }
        proof {
            assert(reply_prefix() + s@.take(s@.len() as int) =~= reply_prefix() + s@);
        }
        r
    }

    /// The sample record the guest hands out.
    pub fn create_data() -> (r: UserData)
        ensures
            r.a == 123,
            r.b@ == seq![
                104u8, 101u8, 108u8, 108u8, 111u8, 32u8, 102u8, 114u8, 111u8, 109u8, 32u8,
                103u8, 117u8, 101u8, 115u8, 116u8,
            ],
            r.c@ == seq![10u32, 20u32, 30u32],
    {
        let mut b: Vec<u8> = Vec::new();
        b.push(104);
        b.push(101);
        b.push(108);
        b.push(108);
        b.push(111);
        b.push(32);
        b.push(102);
        b.push(114);
        b.push(111);
        b.push(109);
        b.push(32);
        b.push(103);
        b.push(117);
        b.push(101);
        b.push(115);
        b.push(116);
        let mut c: Vec<u32> = Vec::new();
        c.push(10);
        c.push(20);
        c.push(30);
        proof {
            assert(b@ =~= seq![
                104u8, 101u8, 108u8, 108u8, 111u8, 32u8, 102u8, 114u8, 111u8, 109u8, 32u8,
                103u8, 117u8, 101u8, 115u8, 116u8,
            ]);
            assert(c@ =~= seq![10u32, 20u32, 30u32]);
        }
        UserData { a: 123, b, c }
    }

    /// A present string maps to its byte length; absence stays absence.
    pub fn handle_option(opt: &Option<Vec<u8>>) -> (r: Option<u32>)
        ensures
            match opt {
                Some(s) => r == Some(s@.len() as u32),
                None => r is None,
            },
    {
        match opt {
            Some(s) => Some(s.len() as u32),
            None => None,
        }
    }

    /// A success maps to its byte length; a failure passes through
    /// unchanged, for every declared error case.
    pub fn handle_result(res: &Result<Vec<u8>, Color>) -> (r: Result<u32, Color>)
        ensures
            match res {
                Ok(s) => r == Ok::<u32, Color>(s@.len() as u32),
                Err(c) => r == Err::<u32, Color>(*c),
            },
    {
        match res {
            Ok(s) => Ok(s.len() as u32),
            Err(c) => Err(*c),
        }
    }

    /// The names of the flags present, in declared flag order.
    pub fn handle_permissions(p: Permissions) -> (r: Vec<Vec<u8>>)
        ensures
            names_view(r@) == perm_names(p),
    {
        let mut r: Vec<Vec<u8>> = Vec::new();
        if p.read {
            let mut w: Vec<u8> = Vec::new();
            w.push(114);
            w.push(101);
            w.push(97);
            w.push(100);
            proof {
                assert(w@ =~= read_name());
            }
            r.push(w);
        }
        if p.write {
            let mut w: Vec<u8> = Vec::new();
            w.push(119);
            w.push(114);
            w.push(105);
            w.push(116);
            w.push(101);
            proof {
                assert(w@ =~= write_name());
            }
            r.push(w);
        }
        if p.execute {
            let mut w: Vec<u8> = Vec::new();
            w.push(101);
            w.push(120);
            w.push(101);
            w.push(99);
            w.push(117);
            w.push(116);
            w.push(101);
            proof {
                assert(w@ =~= execute_name());
            }
            r.push(w);
        }
        proof {
            assert(names_view(r@) =~~= perm_names(p));
        }
        r
    }

    /// The names of the users, in input order, count preserved.
    pub fn process_users(users: &Vec<UserData>) -> (r: Vec<Vec<u8>>)
        ensures
            names_view(r@) == user_names(users@),
    {
        let mut r: Vec<Vec<u8>> = Vec::new();
        let mut i: usize = 0;
        proof {
            assert(names_view(r@) =~= user_names(users@.take(0)));
        }
        while i < users.len()
            invariant
                i <= users@.len(),
                names_view(r@) == user_names(users@.take(i as int)),
            decreases users@.len() - i,
        {
            let ghost prev = r@;
            let name = copy_bytes(&users[i].b);
            r.push(name);
            i = i + 1;
            proof {
                assert(names_view(prev).len() == prev.len());
                assert(user_names(users@.take(i - 1)).len() == i - 1);
                assert(r@.len() == i);
                assert forall|j: int|
                    0 <= j < r@.len() implies #[trigger] names_view(r@)[j] == user_names(
                    users@.take(i as int),
                )[j] by {
                    assert(names_view(r@)[j] == r@[j]@);
                    assert(user_names(users@.take(i as int))[j] == users@.take(i as int)[j].b@);
                    assert(users@.take(i as int)[j] == users@[j]);
                    if j < prev.len() {
                        assert(r@[j] == prev[j]);
                        assert(names_view(prev)[j] == prev[j]@);
                        assert(names_view(prev)[j] == user_names(users@.take(i - 1))[j]);
                        assert(user_names(users@.take(i - 1))[j] == users@.take(i - 1)[j].b@);
                        assert(users@.take(i - 1)[j] == users@[j]);
                    } else {
                        assert(r@[j] == name);
                    }
                }
                assert(names_view(r@) =~= user_names(users@.take(i as int)));
            }
        }
        proof {
            assert(users@.take(users@.len() as int) =~= users@);
        }
        r
    }

    /// The checksum of a complex record, exactly `checksum_of`.
    pub fn handle_complex_record(r: &ComplexRecord) -> (sum: u32)
        ensures
            sum == checksum_of(*r),
    {
        let mut acc: u32 = r.id.len() as u32;
        match &r.permissions {
            Some(p) => {
                if p.write {
                    acc = acc.wrapping_add(100);
                }
            },
            None => {},
        }
        acc = acc.wrapping_add((r.child_data.len() as u32).wrapping_mul(1000));
        let mut k: usize = 0;
        while k < r.child_data.len()
            invariant
                k <= r.child_data@.len(),
                child_sum(r.child_data@, k as int, acc) == child_sum(
                    r.child_data@,
                    0,
                    checksum_partial(*r),
                ),
            decreases r.child_data@.len() - k,
        {
            acc = acc.wrapping_add(r.child_data[k].a);
            k = k + 1;
        }
        match &r.shape_info {
            Ok(f) => match f {
                Figure::Circle(u) => {
                    acc = acc.wrapping_add(*u);
                },
                _ => {},
            },
            Err(_) => {},
        }
        acc
    }
}

/// The checksum before the children are added.
pub open spec fn checksum_partial(r: ComplexRecord) -> u32 {
    let s0 = r.id@.len() as u32;
    let s1 = match r.permissions {
        Some(p) => if p.write {
            wrapping_add(s0, 100)
        } else {
            s0
        },
        None => s0,
    };
    wrapping_add(s1, wrapping_mul(r.child_data@.len() as u32, 1000))
}

} // verus!
