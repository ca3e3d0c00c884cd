//! Named string transforms and the pipelines made of them.
//!
//! A transform is pure: it accepts every text, and texts of the same
//! characters give results of the same characters. What it makes of a text is
//! then a function of the characters, its image.

use vstd::prelude::*;
use vstd::string::*;

verus! {

/// The upper-case form of a text, as `str::to_uppercase` of std gives it.
pub uninterp spec fn uppercase_of(s: Seq<char>) -> Seq<char>;

/// The lower-case form of a text, as `str::to_lowercase` of std gives it.
pub uninterp spec fn lowercase_of(s: Seq<char>) -> Seq<char>;

/// `str::to_uppercase` of std returns the upper-case form of the text, which
/// depends on its characters alone.
pub assume_specification[ str::to_uppercase ](s: &str) -> (r: String)
    ensures
        r@ == uppercase_of(s@),
;

/// `str::to_lowercase` of std returns the lower-case form of the text, which
/// depends on its characters alone.
pub assume_specification[ str::to_lowercase ](s: &str) -> (r: String)
    ensures
        r@ == lowercase_of(s@),
;

/// A string transform: one of the two built in, or one of the caller.
#[derive(Debug)]
pub enum Transform<F> {
    Uppercase,
    Lowercase,
    Custom(F),
}

/// A transform under the name it was registered with, in upper case.
#[derive(Debug)]
pub struct Function<F> {
    pub name: String,
    pub call: Transform<F>,
}

/// The function `f` accepts every text, and texts of the same characters
/// give results of the same characters.
pub open spec fn is_pure<F: Fn(String) -> String>(f: F) -> bool {
    &&& forall|s: String| call_requires(f, (s,))
    &&& forall|a: String, b: String, x: String, y: String|
        a@ == b@ && #[trigger] call_ensures(f, (a,), x) && #[trigger] call_ensures(f, (b,), y)
            ==> x@ == y@
}

/// `r` is what `f` can make of the text `v`.
pub open spec fn makes<F: Fn(String) -> String>(f: F, v: Seq<char>, r: Seq<char>) -> bool {
    exists|a: String, x: String| a@ == v && x@ == r && #[trigger] call_ensures(f, (a,), x)
}

impl<F: Fn(String) -> String> Transform<F> {
    pub open spec fn pure(&self) -> bool {
        match self {
            Transform::Custom(f) => is_pure(*f),
            _ => true,
        }
    }

    /// What the transform makes of the text `v`.
    pub open spec fn image(&self, v: Seq<char>) -> Seq<char> {
        match self {
            Transform::Uppercase => uppercase_of(v),
            Transform::Lowercase => lowercase_of(v),
            Transform::Custom(f) => choose|r: Seq<char>| makes(*f, v, r),
        }
    }

    /// Runs the transform on `s`.
    pub fn apply(&self, s: String) -> (r: String)
        requires
            self.pure(),
        ensures
            r@ == self.image(s@),
    {
        match self {
            Transform::Uppercase => s.as_str().to_uppercase(),
            Transform::Lowercase => s.as_str().to_lowercase(),
            Transform::Custom(f) => {
                let ghost given = s;
                let r = f(s);
                proof {
                    assert(call_ensures(*f, (given,), r));
                    assert(makes(*f, given@, r@));
                    let chosen = self.image(given@);
                    assert(makes(*f, given@, chosen));
                    let (a, x) = choose|a: String, x: String|
                        a@ == given@ && x@ == chosen && #[trigger] call_ensures(*f, (a,), x);
                    assert(x@ == r@);
                }
                r
            },
        }
    }
}

/// What the transforms make of the text `v`, applied one after the other:
/// the first gets `v`, each later one what the one before it made.
pub open spec fn run_pipeline<F: Fn(String) -> String>(
    stages: Seq<Transform<F>>,
    v: Seq<char>,
) -> Seq<char>
    decreases stages.len(),
{
    if stages.len() == 0 {
        v
    } else {
        stages.last().image(run_pipeline(stages.drop_last(), v))
    }
}

/// A pipeline of two transforms gives what the second makes of what the first
/// made of the value.
pub proof fn lemma_pipeline_order<F: Fn(String) -> String>(
    f: Transform<F>,
    g: Transform<F>,
    v: Seq<char>,
)
    ensures
        run_pipeline(seq![f, g], v) == g.image(f.image(v)),
{
    let two = seq![f, g];
    assert(two.drop_last() =~= seq![f]);
    assert(seq![f].drop_last() =~= Seq::<Transform<F>>::empty());
    assert(two.last() == g);
    assert(seq![f].last() == f);
    reveal_with_fuel(run_pipeline, 3);
}

/// A pipeline with one more transform at its end gives what that transform
/// makes of the result of the pipeline before it.
pub proof fn lemma_pipeline_push<F: Fn(String) -> String>(
    stages: Seq<Transform<F>>,
    last: Transform<F>,
    v: Seq<char>,
)
    ensures
        run_pipeline(stages.push(last), v) == last.image(run_pipeline(stages, v)),
{
    assert(stages.push(last).drop_last() =~= stages);
}

} // verus!
