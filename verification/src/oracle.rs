//! The capability that combines two node values into one.

use vstd::prelude::*;

verus! {

/// The reason an oracle gave for not producing a value.
#[derive(Debug, Clone, PartialEq, Eq)]
pub struct HashError {
    pub message: String,
}

/// Combines a left and a right node value into the value of their parent.
///
/// The tree never computes a hash itself: every inner node comes from
/// `combine`, called with the children in level order. An implementation must
/// be a function of its two arguments alone. `combined` names that function,
/// and `combine` promises to return its value whenever it returns at all; it
/// is free to fail on any input. A function or closure becomes an oracle
/// through [`FnOracle`].
pub trait HashOracle {
    /// The value that `combine` yields for `left` and `right`, in this order.
    spec fn combined(&self, left: Seq<char>, right: Seq<char>) -> Seq<char>;

    fn combine(&self, left: &str, right: &str) -> (out: Result<String, HashError>)
        ensures
            out matches Ok(value) ==> value@ == self.combined(left@, right@),
    ;
}

/// `f` may be called on every pair of values.
pub open spec fn always_callable<F: Fn(&str, &str) -> Result<String, HashError>>(f: F) -> bool {
    forall|left: &str, right: &str| call_requires(f, (left, right))
}

/// Whatever `f` returns for a pair of values is fixed by the text of the two.
pub open spec fn single_valued<F: Fn(&str, &str) -> Result<String, HashError>>(f: F) -> bool {
    forall|l1: &str, r1: &str, v1: String, l2: &str, r2: &str, v2: String|
        l1@ == l2@ && r1@ == r2@ && #[trigger] call_ensures(f, (l1, r1), Ok(v1))
            && #[trigger] call_ensures(f, (l2, r2), Ok(v2)) ==> v1@ == v2@
}

/// `value` is the text of something that `f` may return for `left` and `right`.
pub open spec fn may_return<F: Fn(&str, &str) -> Result<String, HashError>>(
    f: F,
    left: Seq<char>,
    right: Seq<char>,
    value: Seq<char>,
) -> bool {
    exists|l: &str, r: &str, v: String|
        l@ == left && r@ == right && v@ == value && #[trigger] call_ensures(f, (l, r), Ok(v))
}

/// An oracle made of a function or closure. The tree's contracts speak of
/// such an oracle through what [`FnOracle::new`] asks of the function: that
/// it accepts every pair of values and that the text of the two fixes what
/// it returns. A caller that Verus does not see is not held to that.
pub struct FnOracle<F: Fn(&str, &str) -> Result<String, HashError>> {
    f: F,
}

impl<F: Fn(&str, &str) -> Result<String, HashError>> FnOracle<F> {
    #[verifier::type_invariant]
    spec fn inv(self) -> bool {
        always_callable(self.f) && single_valued(self.f)
    }

    /// The function that the oracle calls.
    pub closed spec fn function(&self) -> F {
        self.f
    }

    /// Wraps `f`, which must accept every pair of values and be a function
    /// of their text alone.
    pub fn new(f: F) -> (out: Self)
        requires
            always_callable(f),
            single_valued(f),
        ensures
            out.function() == f,
    {
        FnOracle { f }
    }
}

impl<F: Fn(&str, &str) -> Result<String, HashError>> HashOracle for FnOracle<F> {
    /// The text that the function returns for `left` and `right`, where it
    /// can return one.
    open spec fn combined(&self, left: Seq<char>, right: Seq<char>) -> Seq<char> {
        choose|value: Seq<char>| may_return(self.function(), left, right, value)
    }

    /// Calls the function on `left` and `right` and hands on what it returns.
    fn combine(&self, left: &str, right: &str) -> (out: Result<String, HashError>)
        ensures
            call_ensures(self.function(), (left, right), out),
    {
        proof {
            use_type_invariant(self);
        }
        let out = (self.f)(left, right);
        proof {
            if out is Ok {
                let value = out->Ok_0;
                assert(call_ensures(self.f, (left, right), Ok(value)));
                assert(may_return(self.f, left@, right@, value@));
            }
        }
        out
    }
}

} // verus!
