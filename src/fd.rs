use vstd::prelude::*;

verus! {

/// Relies on libc::EIO, the error number of an input/output error: 5 in
/// libc's Linux definitions.
#[verifier::external_body]
fn eio() -> (r: i32)
    ensures
        r == 5,
{
    libc::EIO
}

/// What a read on a descriptor amounts to, from the value the call returned
/// and the error number it left: a byte count, with zero for end of stream,
/// or an error number. On a terminal controller an input/output error means
/// that the worker side has gone, so it reads as end of stream.
pub open spec fn read_result_of(ret: int, errno: i32) -> Result<usize, i32> {
    if ret >= 0 {
        Ok(ret as usize)
    } else if errno == 5 {
        Ok(0)
    } else {
        Err(errno)
    }
}

/// Turns what a read call returned into a byte count or an error number;
/// see `read_result_of`. `errno` is only looked at when `ret` is negative.
pub fn read_result(ret: isize, errno: i32) -> (r: Result<usize, i32>)
    ensures
        r == read_result_of(ret as int, errno),
{
    if ret >= 0 {
        Ok(ret as usize)
    } else if errno == eio() {
        Ok(0)
    } else {
        Err(errno)
    }
}

/// Turns what a write call returned into a byte count or an error number.
pub fn write_result(ret: isize, errno: i32) -> (r: Result<usize, i32>)
    ensures
        ret >= 0 ==> r == Ok::<usize, i32>(ret as usize),
        ret < 0 ==> r == Err::<usize, i32>(errno),
{
    if ret >= 0 {
        Ok(ret as usize)
    } else {
        Err(errno)
    }
}

/// Turns what a call that makes a descriptor returned into the descriptor or
/// an error number.
pub fn descriptor_result(ret: i32, errno: i32) -> (r: Result<i32, i32>)
    ensures
        ret >= 0 ==> r == Ok::<i32, i32>(ret),
        ret < 0 ==> r == Err::<i32, i32>(errno),
{
    if ret >= 0 {
        Ok(ret)
    } else {
        Err(errno)
    }
}

pub open spec fn is_digit(b: u8) -> bool {
    48 <= b <= 57
}

pub open spec fn all_digits(s: Seq<u8>) -> bool {
    forall|i: int| 0 <= i < s.len() ==> is_digit(#[trigger] s[i])
}

/// The number that a string of decimal digits writes.
pub open spec fn decimal_value(s: Seq<u8>) -> int
    decreases s.len(),
{
    if s.len() == 0 {
        0
    } else {
        decimal_value(s.drop_last()) * 10 + (s.last() - 48)
    }
}

/// The descriptor that an entry name of the process's descriptor directory
/// stands for: a non-empty run of decimal digits whose value fits an `i32`.
pub open spec fn descriptor_of(name: Seq<u8>) -> Option<i32> {
    if name.len() > 0 && all_digits(name) && decimal_value(name) <= i32::MAX {
        Some(decimal_value(name) as i32)
    } else {
        None
    }
}

proof fn lemma_decimal_value_grows(s: Seq<u8>, i: int)
    requires
        all_digits(s),
        0 <= i <= s.len(),
    ensures
        0 <= decimal_value(s.take(i)) <= decimal_value(s),
    decreases s.len() - i,
{
    if i < s.len() {
        lemma_decimal_value_grows(s, i + 1);
        assert(s.take(i + 1).drop_last() =~= s.take(i));
        lemma_decimal_value_nonneg(s.take(i));
    } else {
        assert(s.take(i) =~= s);
        lemma_decimal_value_nonneg(s);
    }
}

proof fn lemma_decimal_value_nonneg(s: Seq<u8>)
    requires
        all_digits(s),
    ensures
        decimal_value(s) >= 0,
    decreases s.len(),
{
    if s.len() > 0 {
        lemma_decimal_value_nonneg(s.drop_last());
    }
}

/// Reads an entry name of the process's descriptor directory as the
/// descriptor it stands for; `None` for any other name.
pub fn parse_descriptor(name: &[u8]) -> (r: Option<i32>)
    ensures
        r == descriptor_of(name@),
{
    if name.len() == 0 {
        return None;
    }
    let mut v: i32 = 0;
    let mut i: usize = 0;
    while i < name.len()
        invariant
            0 < name@.len(),
            i <= name@.len(),
            all_digits(name@.take(i as int)),
            v as int == decimal_value(name@.take(i as int)),
            0 <= v,
        decreases name@.len() - i,
    {
        let b = name[i];
        proof {
            assert(name@.take(i + 1).drop_last() =~= name@.take(i as int));
        }
        if b < 48 || b > 57 {
            assert(!all_digits(name@));
            return None;
        }
        let d: i32 = (b - 48) as i32;
        if v > (i32::MAX - d) / 10 {
            proof {
                assert(all_digits(name@.take(i + 1)));
                assert(decimal_value(name@.take(i + 1)) > i32::MAX);
                if all_digits(name@) {
                    lemma_decimal_value_grows(name@, i + 1);
                }
            }
            return None;
        }
        v = v * 10 + d;
        i = i + 1;
        assert(all_digits(name@.take(i as int)));
    }
    assert(name@.take(i as int) =~= name@);
    Some(v)
}

/// The descriptors that a freshly spawned shell must close: every entry of
/// its descriptor directory that names a descriptor above the three standard
/// streams, in the order listed.
pub open spec fn descriptors_to_close_of(names: Seq<Seq<u8>>) -> Seq<i32>
    decreases names.len(),
{
    if names.len() == 0 {
        Seq::empty()
    } else {
        let rest = descriptors_to_close_of(names.drop_last());
        match descriptor_of(names.last()) {
            Some(fd) => if fd > 2 {
                rest.push(fd)
            } else {
                rest
            },
            None => rest,
        }
    }
}

/// The descriptors to close among the entry names of the process's
/// descriptor directory; see `descriptors_to_close_of`.
pub fn descriptors_to_close(names: &Vec<Vec<u8>>) -> (r: Vec<i32>)
    ensures
        r@ == descriptors_to_close_of(names@.map_values(|n: Vec<u8>| n@)),
{
    let ghost all = names@.map_values(|n: Vec<u8>| n@);
    let mut r: Vec<i32> = Vec::new();
    let mut i: usize = 0;
    while i < names.len()
        invariant
            i <= names@.len(),
            all == names@.map_values(|n: Vec<u8>| n@),
            r@ == descriptors_to_close_of(all.take(i as int)),
        decreases names@.len() - i,
    {
        proof {
            assert(all.take(i + 1).drop_last() =~= all.take(i as int));
        }
        match parse_descriptor(names[i].as_slice()) {
            Some(fd) => {
                if fd > 2 {
                    r.push(fd);
                }
            },
            None => {},
        }
        i = i + 1;
    }
    assert(all.take(i as int) =~= all);
    r
}

} // verus!
