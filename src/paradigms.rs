//! The squares of the even elements of a sequence, computed in three styles:
//! an explicit loop, a pipeline of inline closures, and a pipeline of named
//! functions passed as values.
use vstd::prelude::*;

verus! {

/// The predicate "is even", as a value.
pub open spec fn even_test() -> spec_fn(i32) -> bool {
    |x: i32| x % 2 == 0
}

/// The map "square", as a value.
pub open spec fn square_map() -> spec_fn(i32) -> int {
    |x: i32| x * x
}

/// The even elements of `s`, in the order in which they occur.
pub open spec fn evens(s: Seq<i32>) -> Seq<i32> {
    s.filter(even_test())
}

/// The squares of the even elements of `s`, in the order in which the
/// elements occur.
pub open spec fn even_squares(s: Seq<i32>) -> Seq<int> {
    evens(s).map_values(square_map())
}

/// Every square that `even_squares(s)` holds is a value of `i32`.
pub open spec fn squares_fit(s: Seq<i32>) -> bool {
    forall|j: int| 0 <= j < even_squares(s).len() ==> #[trigger] even_squares(s)[j] <= i32::MAX
}

/// A sequence of `i32` read as mathematical integers.
pub open spec fn as_ints(s: Seq<i32>) -> Seq<int> {
    s.map_values(|x: i32| x as int)
}

/// The sample sequence that the demonstration starts from.
pub open spec fn sample() -> Seq<i32> {
    seq![1i32, 2, 3, 4, 5, 6]
}

/// True exactly when `n` is even.
pub fn is_even(n: i32) -> (r: bool)
    ensures
        r == (n % 2 == 0),
{
    n % 2 == 0
}

/// `n` times itself.
pub fn square(n: i32) -> (r: i32)
    requires
        n * n <= i32::MAX,
    ensures
        r == n * n,
{
    proof {
        assert(0 <= n * n) by (nonlinear_arith);
    }
    n * n
}

proof fn lemma_filter_step(s: Seq<i32>, p: spec_fn(i32) -> bool, i: int)
    requires
        0 <= i < s.len(),
    ensures
        s.take(i + 1).filter(p) == (if p(s[i]) {
            s.take(i).filter(p).push(s[i])
        } else {
            s.take(i).filter(p)
        }),
{
    reveal(Seq::filter);
    assert(s.take(i + 1).drop_last() =~= s.take(i));
}

/// Where the squares of the even elements fit, so does that of any even
/// element.
proof fn lemma_even_square_fits(s: Seq<i32>, i: int)
    requires
        0 <= i < s.len(),
        s[i] % 2 == 0,
        squares_fit(s),
    ensures
        s[i] * s[i] <= i32::MAX,
{
    let p = even_test();
    lemma_filter_step(s, p, i);
    assert(s =~= s.take(i + 1) + s.skip(i + 1));
    Seq::filter_distributes_over_add(s.take(i + 1), s.skip(i + 1), p);
    let k = s.take(i).filter(p).len() as int;
    assert(evens(s)[k] == s[i]);
    assert(even_squares(s)[k] == s[i] * s[i]);
}

/// Where the squares of the even elements fit, each even element can be
/// squared.
proof fn lemma_evens_squares_fit(s: Seq<i32>, kept: Seq<i32>)
    requires
        squares_fit(s),
        kept == evens(s),
    ensures
        forall|k: int| 0 <= k < kept.len() ==> #[trigger] kept[k] * kept[k] <= i32::MAX,
{
    assert forall|k: int| 0 <= k < kept.len() implies #[trigger] kept[k] * kept[k] <= i32::MAX by {
        assert(even_squares(s)[k] == kept[k] * kept[k]);
    }
}

/// The elements of `v` for which `pred` holds, in order.
fn keep_where(v: &Vec<i32>, pred: impl Fn(i32) -> bool, Ghost(p): Ghost<spec_fn(i32) -> bool>) -> (r:
    Vec<i32>)
    requires
        forall|x: i32| pred.requires((x,)),
        forall|x: i32, b: bool| pred.ensures((x,), b) ==> b == p(x),
    ensures
        r@ == v@.filter(p),
{
    let mut r: Vec<i32> = Vec::new();
    let mut i: usize = 0;
    proof {
        reveal(Seq::filter);
        assert(v@.take(0) =~= Seq::<i32>::empty());
    }
    while i < v.len()
        invariant
            i <= v.len(),
            forall|x: i32| pred.requires((x,)),
            forall|x: i32, b: bool| pred.ensures((x,), b) ==> b == p(x),
            r@ == v@.take(i as int).filter(p),
        decreases v.len() - i,
    {
        let x = v[i];
        proof {
            lemma_filter_step(v@, p, i as int);
        }
        if pred(x) {
            r.push(x);
        }
        i = i + 1;
    }
    proof {
        assert(v@.take(i as int) =~= v@);
    }
    r
}

/// `f` applied to each element of `v`, in order.
fn map_each(v: &Vec<i32>, f: impl Fn(i32) -> i32, Ghost(g): Ghost<spec_fn(i32) -> int>) -> (r: Vec<
    i32,
>)
    requires
        forall|k: int| 0 <= k < v.len() ==> f.requires((#[trigger] v@[k],)),
        forall|x: i32, y: i32| f.ensures((x,), y) ==> y == g(x),
    ensures
        as_ints(r@) == v@.map_values(g),
{
    let mut r: Vec<i32> = Vec::new();
    let mut i: usize = 0;
    while i < v.len()
        invariant
            i <= v.len(),
            forall|k: int| 0 <= k < v.len() ==> f.requires((#[trigger] v@[k],)),
            forall|x: i32, y: i32| f.ensures((x,), y) ==> y == g(x),
            r.len() == i,
            forall|k: int| 0 <= k < i ==> r@[k] == g(#[trigger] v@[k]),
        decreases v.len() - i,
    {
        let y = f(v[i]);
        r.push(y);
        i = i + 1;
    }
    proof {
        assert(as_ints(r@) =~= v@.map_values(g));
    }
    r
}

/// The squares of the even elements of `numbers`, built by one explicit
/// loop that appends as it goes.
pub fn imperative_squares(numbers: &Vec<i32>) -> (r: Vec<i32>)
    requires
        squares_fit(numbers@),
    ensures
        as_ints(r@) == even_squares(numbers@),
{
    let ghost s = numbers@;
    let mut result: Vec<i32> = Vec::new();
    let mut i: usize = 0;
    proof {
        reveal(Seq::filter);
        assert(s.take(0) =~= Seq::<i32>::empty());
        assert(as_ints(result@) =~= evens(s.take(0)).map_values(square_map()));
    }
    while i < numbers.len()
        invariant
            s == numbers@,
            i <= s.len(),
            squares_fit(s),
            as_ints(result@) == evens(s.take(i as int)).map_values(square_map()),
        decreases s.len() - i,
    {
        let num = numbers[i];
        proof {
            lemma_filter_step(s, even_test(), i as int);
        }
        if num % 2 == 0 {
            proof {
                lemma_even_square_fits(s, i as int);
                assert(0 <= num * num) by (nonlinear_arith);
            }
            let ghost before = result@;
            result.push(num * num);
            proof {
                assert(as_ints(result@) =~= as_ints(before).push(num * num));
                assert(evens(s.take(i + 1)).map_values(square_map()) =~= evens(
                    s.take(i as int),
                ).map_values(square_map()).push(num * num));
            }
        }
        i = i + 1;
    }
    proof {
        assert(s.take(i as int) =~= s);
    }
    result
}

/// The squares of the even elements of `numbers`, as a pipeline of two
/// stages whose test and map are written in place.
pub fn declarative_squares(numbers: &Vec<i32>) -> (r: Vec<i32>)
    requires
        squares_fit(numbers@),
    ensures
        as_ints(r@) == even_squares(numbers@),
{
    let even = (|n: i32| -> (b: bool)
        ensures
            b == (n % 2 == 0),
        { n % 2 == 0 });
    let kept = keep_where(numbers, even, Ghost(even_test()));
    proof {
        lemma_evens_squares_fit(numbers@, kept@);
    }
    let times_itself = (|n: i32| -> (m: i32)
        requires
            n * n <= i32::MAX,
        ensures
            m == n * n,
        {
            proof {
                assert(0 <= n * n) by (nonlinear_arith);
            }
            n * n
        });
    map_each(&kept, times_itself, Ghost(square_map()))
}

/// The squares of the even elements of `numbers`, as a pipeline of two
/// stages that are handed the named functions `is_even` and `square`.
pub fn functional_squares(numbers: &Vec<i32>) -> (r: Vec<i32>)
    requires
        squares_fit(numbers@),
    ensures
        as_ints(r@) == even_squares(numbers@),
{
    let kept = keep_where(numbers, is_even, Ghost(even_test()));
    proof {
        lemma_evens_squares_fit(numbers@, kept@);
    }
    map_each(&kept, square, Ghost(square_map()))
}

/// The squares of the even elements keep the order of the elements: those
/// of a first part all come before those of the part that follows it.
pub proof fn lemma_even_squares_concat(a: Seq<i32>, b: Seq<i32>)
    ensures
        even_squares(a + b) == even_squares(a) + even_squares(b),
{
    Seq::filter_distributes_over_add(a, b, even_test());
    assert(even_squares(a + b) =~= even_squares(a) + even_squares(b));
}

/// A fresh copy of the sample sequence `[1, 2, 3, 4, 5, 6]`.
pub fn sample_numbers() -> (r: Vec<i32>)
    ensures
        r@ == sample(),
{
    let r = vec![1, 2, 3, 4, 5, 6];
    proof {
        assert(r@ =~= sample());
    }
    r
}

/// The squares of the even elements of the sample sequence are 4, 16 and 36.
pub proof fn lemma_sample_even_squares()
    ensures
        squares_fit(sample()),
        even_squares(sample()) == seq![4int, 16, 36],
{
    reveal_with_fuel(Seq::filter, 7);
    let e = evens(sample());
    assert(e =~= seq![2i32, 4, 6]);
    assert(e[0] == 2 && e[1] == 4 && e[2] == 6);
    let q = even_squares(sample());
    assert(q.len() == 3);
    assert(q[0] == 4 && q[1] == 16 && q[2] == 36);
    assert(q =~= seq![4int, 16, 36]);
}

/// From `s` as integers and the integers wanted, the `i32` values themselves.
proof fn lemma_ints_exact(s: Seq<i32>, t: Seq<i32>)
    requires
        as_ints(s) == as_ints(t),
    ensures
        s == t,
{
    assert(s.len() == as_ints(s).len() && t.len() == as_ints(t).len());
    assert forall|k: int| 0 <= k < s.len() implies s[k] == t[k] by {
        assert(as_ints(s)[k] == s[k] as int);
        assert(as_ints(t)[k] == t[k] as int);
    }
    assert(s =~= t);
}

/// A result that holds the squares of the even sample elements is `[4, 16, 36]`.
proof fn lemma_sample_result(r: Seq<i32>)
    requires
        as_ints(r) == even_squares(sample()),
    ensures
        r == seq![4i32, 16, 36],
{
    lemma_sample_even_squares();
    assert(as_ints(seq![4i32, 16, 36]) =~= seq![4int, 16, 36]);
    lemma_ints_exact(r, seq![4i32, 16, 36]);
}

/// The loop routine on the sample sequence.
pub fn imperative_example() -> (r: Vec<i32>)
    ensures
        r@ == seq![4i32, 16, 36],
{
    let numbers = sample_numbers();
    proof {
        lemma_sample_even_squares();
    }
    let r = imperative_squares(&numbers);
    proof {
        lemma_sample_result(r@);
    }
    r
}

/// The pipeline of inline closures on the sample sequence.
pub fn declarative_example() -> (r: Vec<i32>)
    ensures
        r@ == seq![4i32, 16, 36],
{
    let numbers = sample_numbers();
    proof {
        lemma_sample_even_squares();
    }
    let r = declarative_squares(&numbers);
    proof {
        lemma_sample_result(r@);
    }
    r
}

/// The pipeline of named functions on the sample sequence.
pub fn functional_example() -> (r: Vec<i32>)
    ensures
        r@ == seq![4i32, 16, 36],
{
    let numbers = sample_numbers();
    proof {
        lemma_sample_even_squares();
    }
    let r = functional_squares(&numbers);
    proof {
        lemma_sample_result(r@);
    }
    r
}

} // verus!
