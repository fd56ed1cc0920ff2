//! Verdicts of the end-to-end test kinds, decided from what a run of a compiled program
//! printed: its standard output when it succeeded, its error stream when it failed.
use vstd::prelude::*;

verus! {

/// The kinds of end-to-end test.
#[derive(Clone, Copy, Debug, PartialEq, Eq, Structural)]
pub enum TestKind {
    /// The program runs and prints the expected lines.
    Success,
    /// The program compiles and fails at run time with a type or overflow error.
    RuntimeError,
    /// The program fails to compile.
    StaticError,
}

/// Whether `needle` occurs in `hay`.
pub open spec fn occurs(hay: Seq<char>, needle: Seq<char>) -> bool {
    exists|i: int| 0 <= i <= hay.len() - needle.len() && #[trigger] hay.subrange(i, i + needle.len()) == needle
}

/// Whether `needle` occurs in `hay`.
fn has_substring(hay: &str, needle: &str) -> (r: bool)
    ensures
        r == occurs(hay@, needle@),
{
    let n = hay.unicode_len();
    let m = needle.unicode_len();
    if m > n {
        return false;
    }
    let mut i: usize = 0;
    while i <= n - m
        invariant
            n == hay@.len(),
            m == needle@.len(),
            m <= n,
            i <= n - m + 1,
            forall|k: int| 0 <= k < i ==> #[trigger] hay@.subrange(k, k + m) != needle@,
        decreases n - m + 1 - i,
    {
        let mut j: usize = 0;
        let mut same = true;
        while j < m && same
            invariant
                n == hay@.len(),
                m == needle@.len(),
                i + m <= n,
                j <= m,
                forall|q: int| 0 <= q < j ==> hay@[i + q] == needle@[q],
                !same ==> j < m && hay@[i + j] != needle@[j as int],
            decreases m - j + (if same { 1int } else { 0int }),
        {
            if hay.get_char(i + j) != needle.get_char(j) {
                same = false;
            } else {
                j += 1;
            }
        }
        if same {
            assert(hay@.subrange(i as int, i + m) =~= needle@);
            return true;
        }
        assert(hay@.subrange(i as int, i + m)[j as int] != needle@[j as int]);
        i += 1;
    }
    false
}

/// What a text is without its leading and trailing Unicode whitespace.
pub uninterp spec fn trimmed(s: Seq<char>) -> Seq<char>;

/// Relies on `str::trim`: the text without leading and trailing whitespace.
#[verifier::external_body]
fn trim_text(s: &str) -> (r: String)
    ensures
        r@ == trimmed(s@),
{
    s.trim().to_string()
}

/// The lines of a text, split at `\n` or `\r\n`, a final line break ending the last line.
pub uninterp spec fn lines_of(s: Seq<char>) -> Seq<Seq<char>>;

/// Relies on `str::lines`: the lines of the text, in order.
#[verifier::external_body]
fn split_lines(s: &str) -> (r: Vec<String>)
    ensures
        r@.len() == lines_of(s@).len(),
        forall|i: int| 0 <= i < r@.len() ==> #[trigger] r@[i]@ == lines_of(s@)[i],
{
    s.lines().map(|x| x.to_string()).collect()
}

/// Whether two vectors of strings hold the same texts in the same order.
fn same_lines(a: &Vec<String>, b: &Vec<String>) -> (r: bool)
    ensures
        r == (a@.len() == b@.len() && forall|i: int| 0 <= i < a@.len() ==> #[trigger] a@[i]@ == b@[i]@),
{
    if a.len() != b.len() {
        return false;
    }
    let mut i: usize = 0;
    while i < a.len()
        invariant
            i <= a.len() == b.len(),
            forall|j: int| 0 <= j < i ==> #[trigger] a@[j]@ == b@[j]@,
        decreases a.len() - i,
    {
        if a[i] != b[i] {
            return false;
        }
        i += 1;
    }
    true
}

/// A successful run whose output has the expected lines; surrounding whitespace of the
/// expected text does not count.
pub open spec fn success_verdict(expected: Seq<char>, outcome: Result<Seq<char>, Seq<char>>) -> bool {
    match outcome {
        Ok(out) => lines_of(trimmed(expected)) == lines_of(out),
        Err(_) => false,
    }
}

/// A failed run whose error stream names a type or overflow error.
pub open spec fn runtime_error_verdict(outcome: Result<Seq<char>, Seq<char>>) -> bool {
    match outcome {
        Ok(_) => false,
        Err(err) => occurs(err, "Type"@) || occurs(err, "Overflow"@),
    }
}

/// A failed run whose error stream names a syntax or program error, and a syntax error where
/// `Invalid` is expected.
pub open spec fn static_error_verdict(expected: Seq<char>, outcome: Result<Seq<char>, Seq<char>>) -> bool {
    match outcome {
        Ok(_) => false,
        Err(err) => (occurs(err, "Syntax"@) || occurs(err, "BadProgram"@)) && (expected
            == "Invalid"@ ==> occurs(err, "Syntax"@)),
    }
}

/// The view of a run's outcome.
pub open spec fn outcome_view(outcome: &Result<String, String>) -> Result<Seq<char>, Seq<char>> {
    match outcome {
        Ok(s) => Ok(s@),
        Err(s) => Err(s@),
    }
}

/// The verdict of a success test.
pub fn run_success_test(expected: &str, outcome: &Result<String, String>) -> (r: bool)
    ensures
        r == success_verdict(expected@, outcome_view(outcome)),
{
    match outcome {
        Ok(out) => {
            let t = trim_text(expected);
            let want = split_lines(t.as_str());
            let got = split_lines(out.as_str());
            let r = same_lines(&want, &got);
            assert(r == (want@.len() == got@.len() && forall|i: int| 0 <= i < want@.len() ==> #[trigger] want@[i]@ == got@[i]@));
            proof {
                let lw = lines_of(trimmed(expected@));
                let lg = lines_of(out@);
                if r {
                    assert(lw =~= lg) by {
                        assert forall|i: int| 0 <= i < lw.len() implies lw[i] == lg[i] by {
                            assert(want@[i]@ == lw[i]);
                            assert(got@[i]@ == lg[i]);
                        }
                    }
                } else if lw == lg {
                    assert forall|i: int| 0 <= i < want@.len() implies #[trigger] want@[i]@ == got@[i]@ by {
                        assert(want@[i]@ == lw[i]);
                        assert(got@[i]@ == lg[i]);
                    }
                }
            }
            r
        },
        Err(_) => false,
    }
}

/// The verdict of a runtime-error test.
pub fn run_runtime_error_test(outcome: &Result<String, String>) -> (r: bool)
    ensures
        r == runtime_error_verdict(outcome_view(outcome)),
{
    match outcome {
        Ok(_) => false,
        Err(err) => has_substring(err.as_str(), "Type") || has_substring(err.as_str(), "Overflow"),
    }
}

/// The verdict of a static-error test.
pub fn run_static_error_test(expected: &str, outcome: &Result<String, String>) -> (r: bool)
    ensures
        r == static_error_verdict(expected@, outcome_view(outcome)),
{
    match outcome {
        Ok(_) => false,
        Err(err) => {
            let named = has_substring(err.as_str(), "Syntax") || has_substring(err.as_str(), "BadProgram");
            let wants_syntax = String::from_str(expected) == String::from_str("Invalid");
            named && (!wants_syntax || has_substring(err.as_str(), "Syntax"))
        },
    }
}

/// The verdict of a test of kind `kind`.
pub fn run_test(kind: TestKind, expected: &str, outcome: &Result<String, String>) -> (r: bool)
    ensures
        r == match kind {
            TestKind::Success => success_verdict(expected@, outcome_view(outcome)),
            TestKind::RuntimeError => runtime_error_verdict(outcome_view(outcome)),
            TestKind::StaticError => static_error_verdict(expected@, outcome_view(outcome)),
        },
{
    match kind {
        TestKind::Success => run_success_test(expected, outcome),
        TestKind::RuntimeError => run_runtime_error_test(outcome),
        TestKind::StaticError => run_static_error_test(expected, outcome),
    }
}

} // verus!
