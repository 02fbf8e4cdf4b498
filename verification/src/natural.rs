use vstd::prelude::*;

use crate::order::{is_stable_sort, lemma_stable_order_sorts, stable_order, stable_order_spec};
use crate::text::{chars_of, is_ascii_digit};

verus! {

/// Index of the last `.` in `s`, or -1 when there is none.
pub open spec fn last_dot(s: Seq<char>) -> int
    decreases s.len(),
{
    if s.len() == 0 {
        -1
    } else if s.last() == '.' {
        s.len() - 1
    } else {
        last_dot(s.drop_last())
    }
}

/// The stem of a file name, as `Path::file_stem` computes it: the name is kept
/// whole when it is `..`, has no `.`, or has its only `.` first; otherwise it is
/// the part before the last `.`.
pub open spec fn file_stem(name: Seq<char>) -> Seq<char> {
    if name == seq!['.', '.'] || last_dot(name) <= 0 {
        name
    } else {
        name.take(last_dot(name))
    }
}

/// The longest run of ASCII digits that ends `s`.
pub open spec fn trailing_digits(s: Seq<char>) -> Seq<char>
    decreases s.len(),
{
    if s.len() > 0 && is_ascii_digit(s.last()) {
        trailing_digits(s.drop_last()).push(s.last())
    } else {
        seq![]
    }
}

/// The number that a string of decimal digits denotes.
pub open spec fn digits_value(d: Seq<char>) -> nat
    decreases d.len(),
{
    if d.len() == 0 {
        0
    } else {
        digits_value(d.drop_last()) * 10 + (d.last() as nat - 48) as nat
    }
}

/// The sort key of an export file: the number that ends its stem
/// (`messages14.html` gives 14), or 0 when the stem ends in no digit or the
/// number does not fit in a `u64`.
pub open spec fn natural_index(file_name: Seq<char>) -> u64 {
    let d = trailing_digits(file_stem(file_name));
    if d.len() > 0 && digits_value(d) <= u64::MAX {
        digits_value(d) as u64
    } else {
        0
    }
}

proof fn lemma_digits_value_grows(d: Seq<char>, m: int)
    requires
        0 <= m <= d.len(),
        forall|i: int| 0 <= i < d.len() ==> is_ascii_digit(#[trigger] d[i]),
    ensures
        digits_value(d.take(m)) <= digits_value(d),
    decreases d.len(),
{
    if m < d.len() {
        assert(d.drop_last().take(m) =~= d.take(m));
        lemma_digits_value_grows(d.drop_last(), m);
    } else {
        assert(d.take(m) =~= d);
    }
}

/// Extracts the numeric suffix of an export file's name for natural sorting:
/// `messages.html` gives 0, `messages2.html` 2, `messages14.html` 14.
pub fn natural_file_index(file_name: &str) -> (res: u64)
    ensures
        res == natural_index(file_name@),
{
    let cs = chars_of(file_name);
    let n = cs.len();
    // Locate the last dot.
    let mut j: usize = n;
    assert(cs@.take(n as int) =~= cs@);
    while j > 0 && cs[j - 1] != '.'
        invariant
            j <= n == cs@.len(),
            last_dot(cs@) == last_dot(cs@.take(j as int)),
        decreases j,
    {
        assert(cs@.take(j as int).drop_last() =~= cs@.take((j - 1) as int));
        j = j - 1;
    }
    let is_dot_dot = n == 2 && cs[0] == '.' && cs[1] == '.';
    proof {
        if is_dot_dot {
            assert(cs@ =~= seq!['.', '.']);
        }
        if n == 2 && cs@ == seq!['.', '.'] {
            assert(cs@[0] == '.' && cs@[1] == '.');
        }
    }
    let stem_end: usize = if is_dot_dot || j <= 1 {
        n
    } else {
        j - 1
    };
    assert(cs@.take(stem_end as int) == file_stem(cs@)) by {
        if !(is_dot_dot || j <= 1) {
            assert(last_dot(cs@) == j - 1);
        } else if j == 1 {
            assert(last_dot(cs@) == 0);
        } else if j == 0 {
            assert(last_dot(cs@) == -1);
        }
    }
    // Walk back over the trailing digits of the stem.
    let mut k: usize = stem_end;
    assert(cs@.subrange(stem_end as int, stem_end as int) =~= Seq::<char>::empty());
    while k > 0 && '0' <= cs[k - 1] && cs[k - 1] <= '9'
        invariant
            k <= stem_end <= n == cs@.len(),
            trailing_digits(cs@.take(stem_end as int)) == trailing_digits(cs@.take(k as int))
                + cs@.subrange(k as int, stem_end as int),
            forall|i: int| k <= i < stem_end ==> is_ascii_digit(#[trigger] cs@[i]),
        decreases k,
    {
        assert(cs@.take(k as int).drop_last() =~= cs@.take((k - 1) as int));
        assert(cs@.subrange((k - 1) as int, stem_end as int) =~= seq![cs@[k - 1]]
            + cs@.subrange(k as int, stem_end as int));
        k = k - 1;
    }
    assert(trailing_digits(cs@.take(k as int)) =~= Seq::<char>::empty());
    let ghost d = cs@.subrange(k as int, stem_end as int);
    assert(trailing_digits(file_stem(cs@)) =~= d);
    if k == stem_end {
        return 0;
    }
    // Accumulate the value, giving 0 on overflow.
    let mut v: u64 = 0;
    let mut i: usize = k;
    assert(cs@.subrange(k as int, k as int) =~= Seq::<char>::empty());
    while i < stem_end
        invariant
            k <= i <= stem_end <= n == cs@.len(),
            d == cs@.subrange(k as int, stem_end as int),
            trailing_digits(file_stem(file_name@)) == d,
            forall|t: int| k <= t < stem_end ==> is_ascii_digit(#[trigger] cs@[t]),
            v == digits_value(cs@.subrange(k as int, i as int)),
        decreases stem_end - i,
    {
        let c = cs[i];
        let dig: u64 = (c as u32 - 48) as u64;
        assert(cs@.subrange(k as int, (i + 1) as int).drop_last() =~= cs@.subrange(
            k as int,
            i as int,
        ));
        let next = match v.checked_mul(10) {
            Some(t) => t.checked_add(dig),
            None => None,
        };
        match next {
            Some(t) => {
                v = t;
            },
            None => {
                proof {
                    let sub = cs@.subrange(k as int, (i + 1) as int);
                    assert(sub.last() == c);
                    assert(digits_value(sub) == v * 10 + dig);
                    assert(digits_value(sub) > u64::MAX);
                    assert(d.take(i + 1 - k) =~= cs@.subrange(k as int, (i + 1) as int));
                    lemma_digits_value_grows(d, i + 1 - k);
                }
                return 0;
            },
        }
        i = i + 1;
    }
    v
}

/// Natural ordering law: the processing order lists every file exactly once,
/// by nondecreasing `natural_file_index`, files with equal index in the order
/// they were given.
pub proof fn lemma_natural_order_sorts(file_names: Seq<String>)
    requires
        file_names.len() <= usize::MAX,
    ensures
        is_stable_sort(
            file_names.map_values(|f: String| natural_index(f@)),
            file_names.len() as nat,
            false,
            stable_order_spec(
                file_names.map_values(|f: String| natural_index(f@)),
                file_names.len() as nat,
                false,
            ),
        ),
{
    lemma_stable_order_sorts(
        file_names.map_values(|f: String| natural_index(f@)),
        file_names.len() as nat,
        false,
    );
}

/// The order in which export files are processed: indices of `file_names`
/// sorted by `natural_file_index`, files with equal index keeping their order.
pub fn natural_order(file_names: &Vec<String>) -> (res: Vec<usize>)
    ensures
        res@ == stable_order_spec(
            file_names@.map_values(|f: String| natural_index(f@)),
            file_names.len() as nat,
            false,
        ),
{
    let mut keys: Vec<u64> = Vec::new();
    for i in 0..file_names.len()
        invariant
            keys@ =~= file_names@.take(i as int).map_values(|f: String| natural_index(f@)),
    {
        keys.push(natural_file_index(file_names[i].as_str()));
    }
    assert(file_names@.take(file_names.len() as int) =~= file_names@);
    stable_order(&keys, false)
}

} // verus!
