//! Names of data files: `<file_id>.<extension>`, the id in decimal.
use vstd::prelude::*;

verus! {

/// The byte is an ASCII decimal digit.
pub open spec fn is_digit(b: u8) -> bool {
    48 <= b <= 57
}

/// Every byte of `s` is a decimal digit.
pub open spec fn all_digits(s: Seq<u8>) -> bool {
    forall|i: int| 0 <= i < s.len() ==> is_digit(#[trigger] s[i])
}

/// The number that the decimal digits `s` spell.
pub open spec fn decimal_value(s: Seq<u8>) -> nat
    decreases s.len(),
{
    if s.len() == 0 {
        0
    } else {
        decimal_value(s.drop_last()) * 10 + (s.last() - 48) as nat
    }
}

/// The digits of a stem: what follows one optional leading `+`.
pub open spec fn stem_digits(stem: Seq<u8>) -> Seq<u8> {
    if stem.len() > 0 && stem[0] == 43u8 {
        stem.subrange(1, stem.len() as int)
    } else {
        stem
    }
}

/// The stem of the data file name `name`: what stands before `.ext`.
pub open spec fn name_stem(name: Seq<u8>, ext: Seq<u8>) -> Seq<u8> {
    name.subrange(0, name.len() - ext.len() - 1)
}

/// `name` is `stem.ext` with a stem of one or more decimal digits, after one optional
/// leading `+`, as an unsigned number is written.
pub open spec fn is_data_file_name(name: Seq<u8>, ext: Seq<u8>) -> bool {
    let stem_len = name.len() - ext.len() - 1;
    &&& name.len() >= ext.len() + 2
    &&& name.subrange(stem_len + 1, name.len() as int) == ext
    &&& name[stem_len] == 46u8
    &&& stem_digits(name_stem(name, ext)).len() >= 1
    &&& all_digits(stem_digits(name_stem(name, ext)))
}

/// The id that the data file name `name` gives, as a number.
pub open spec fn name_id(name: Seq<u8>, ext: Seq<u8>) -> nat {
    decimal_value(stem_digits(name_stem(name, ext)))
}

/// A longer string of digits is worth at least as much as its prefix.
proof fn lemma_decimal_prefix(s: Seq<u8>, i: int)
    requires
        0 <= i <= s.len(),
        all_digits(s),
    ensures
        decimal_value(s.subrange(0, i)) <= decimal_value(s),
    decreases s.len() - i,
{
    if i < s.len() {
        lemma_decimal_prefix(s, i + 1);
        assert(s.subrange(0, i + 1).drop_last() =~= s.subrange(0, i));
    } else {
        assert(s.subrange(0, i) =~= s);
    }
}

/// The id of a data file named `name` with extension `ext`, or nothing when the name is
/// not a run of decimal digits, a dot and `ext`, or the number passes 64 bits.
pub fn parse_file_id(name: &[u8], ext: &[u8]) -> (r: Option<u64>)
    ensures
        r == (if is_data_file_name(name@, ext@) && name_id(name@, ext@) <= u64::MAX {
            Some(name_id(name@, ext@) as u64)
        } else {
            None::<u64>
        }),
{
    let n = name.len();
    let e = ext.len();
    if n < e || n - e < 2 {
        return None;
    }
    let stem_len = n - e - 1;
    let mut j: usize = 0;
    while j < e
        invariant
            n == name@.len(),
            e == ext@.len(),
            stem_len + 1 + e == n,
            j <= e,
            forall|t: int| 0 <= t < j ==> name@[stem_len + 1 + t] == ext@[t],
        decreases e - j,
    {
        if name[stem_len + 1 + j] != ext[j] {
            assert(name@.subrange(stem_len + 1, n as int)[j as int] != ext@[j as int]);
            return None;
        }
        j = j + 1;
    }
    assert(name@.subrange(stem_len + 1, n as int) =~= ext@);
    if name[stem_len] != 46 {
        return None;
    }
    let ghost stem = name@.subrange(0, stem_len as int);
    let start: usize = if name[0] == 43 { 1 } else { 0 };
    let ghost digits = name@.subrange(start as int, stem_len as int);
    assert(stem_digits(stem) =~= digits);
    assert(name_stem(name@, ext@) =~= stem);
    if start == stem_len {
        return None;
    }
    let mut acc: u64 = 0;
    let mut i: usize = start;
    while i < stem_len
        invariant
            n == name@.len(),
            e == ext@.len(),
            stem_len + 1 + e == n,
            start <= i <= stem_len,
            digits == name@.subrange(start as int, stem_len as int),
            stem_digits(name_stem(name@, ext@)) == digits,
            all_digits(digits.subrange(0, i - start)),
            acc as nat == decimal_value(digits.subrange(0, i - start)),
        decreases stem_len - i,
    {
        let b = name[i];
        let ghost j = i - start;
        if !(48 <= b && b <= 57) {
            assert(!is_digit(digits[j]));
            assert(!all_digits(digits));
            return None;
        }
        assert(digits.subrange(0, j + 1).drop_last() =~= digits.subrange(0, j));
        assert(all_digits(digits.subrange(0, j + 1)));
        if acc > (u64::MAX - (b - 48) as u64) / 10 {
            proof {
                let d = (b - 48) as int;
                let a = acc as int;
                assert(a * 10 + d > u64::MAX) by (nonlinear_arith)
                    requires
                        a > (u64::MAX - d) / 10,
                        0 <= d <= 9,
                ;
                assert(decimal_value(digits.subrange(0, j + 1)) == a * 10 + d);
                if all_digits(digits) {
                    lemma_decimal_prefix(digits, j + 1);
                }
            }
            return None;
        }
        acc = acc * 10 + (b - 48) as u64;
        i = i + 1;
    }
    assert(digits.subrange(0, i - start) =~= digits);
    Some(acc)
}

/// The ids that the data file names among `names` give, in the order of the names.
pub open spec fn parsed_ids(names: Seq<Seq<u8>>, ext: Seq<u8>) -> Seq<u64>
    decreases names.len(),
{
    if names.len() == 0 {
        Seq::<u64>::empty()
    } else {
        let r = parsed_ids(names.drop_last(), ext);
        let n = names.last();
        if is_data_file_name(n, ext) && name_id(n, ext) <= u64::MAX {
            r.push(name_id(n, ext) as u64)
        } else {
            r
        }
    }
}

/// The ids stand in ascending order.
pub open spec fn ascending(s: Seq<u64>) -> bool {
    forall|i: int, j: int| 0 <= i < j < s.len() ==> s[i] <= s[j]
}

/// The names as byte strings.
pub open spec fn names_view(names: Seq<Vec<u8>>) -> Seq<Seq<u8>> {
    names.map_values(|n: Vec<u8>| n@)
}

/// The ids of the data files among the directory entries `names`, in ascending order:
/// every name that is a data file name with extension `ext` gives its id, and any other
/// name is left out.
pub fn data_file_ids(names: &Vec<Vec<u8>>, ext: &[u8]) -> (r: Vec<u64>)
    ensures
        ascending(r@),
        r@.to_multiset() == parsed_ids(names_view(names@), ext@).to_multiset(),
{
    let ghost all = names_view(names@);
    let mut out: Vec<u64> = Vec::new();
    let mut i: usize = 0;
    while i < names.len()
        invariant
            i <= names@.len(),
            all == names_view(names@),
            ascending(out@),
            out@.to_multiset() == parsed_ids(all.subrange(0, i as int), ext@).to_multiset(),
        decreases names@.len() - i,
    {
        assert(all.subrange(0, i + 1).drop_last() =~= all.subrange(0, i as int));
        assert(all.subrange(0, i + 1).last() == names@[i as int]@);
        let ghost prev = parsed_ids(all.subrange(0, i as int), ext@);
        let name = names[i].as_slice();
        assert(name@ == all.subrange(0, i + 1).last());
        match parse_file_id(name, ext) {
            None => {
                assert(parsed_ids(all.subrange(0, i + 1), ext@) == prev);
            },
            Some(id) => {
                assert(parsed_ids(all.subrange(0, i + 1), ext@) == prev.push(id));
                proof {
                    vstd::seq_lib::to_multiset_build(prev, id);
                }
                let mut p: usize = 0;
                while p < out.len() && out[p] <= id
                    invariant
                        p <= out@.len(),
                        forall|k: int| 0 <= k < p ==> out@[k] <= id,
                    decreases out@.len() - p,
                {
                    p = p + 1;
                }
                let ghost before = out@;
                out.insert(p, id);
                assert(out@ == before.insert(p as int, id));
                proof {
                    vstd::seq_lib::to_multiset_insert(before, p as int, id);
                }
                assert forall|a: int, b: int| 0 <= a < b < out@.len() implies out@[a] <= out@[b] by {
                    if b < p {
                    } else if b == p {
                    } else if a < p {
                        assert(before[a] <= id);
                        assert(id < before[p as int]);
                        assert(before[p as int] <= before[b - 1]);
                    } else if a == p {
                        assert(id < before[p as int]);
                        assert(p == b - 1 || before[p as int] <= before[b - 1]);
                    } else {
                        assert(before[a - 1] <= before[b - 1]);
                    }
                }
            },
        }
        i = i + 1;
    }
    assert(all.subrange(0, i as int) =~= all);
    out
}

} // verus!
