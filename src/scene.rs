use vstd::prelude::*;

verus! {

/// The upper bound that the scan hands to the next test, given the answers
/// of the tests before it: the parameter of the latest hit, or `t_max` while
/// there is none.
pub open spec fn bound_after<H, T>(answers: Seq<Option<(H, T)>>, t_max: T) -> T
    decreases answers.len(),
{
    if answers.len() == 0 {
        t_max
    } else {
        match answers.last() {
            Some(hit) => hit.1,
            None => bound_after(answers.drop_last(), t_max),
        }
    }
}

/// `answers` is what the tests of objects `0 .. answers.len()` may have
/// returned, each test being given the bound that the earlier answers left.
pub open spec fn is_scan<H, T, F: Fn(usize, T) -> Option<(H, T)>>(
    answers: Seq<Option<(H, T)>>,
    t_max: T,
    test: F,
) -> bool {
    forall|i: int|
        0 <= i < answers.len() ==> test.ensures(
            (i as usize, bound_after(answers.take(i), t_max)),
            #[trigger] answers[i],
        )
}

/// The latest hit among the answers, with the index of its object.
pub open spec fn last_hit<H, T>(answers: Seq<Option<(H, T)>>) -> Option<(H, usize)>
    decreases answers.len(),
{
    if answers.len() == 0 {
        None
    } else {
        match answers.last() {
            Some(hit) => Some((hit.0, (answers.len() - 1) as usize)),
            None => last_hit(answers.drop_last()),
        }
    }
}

/// The latest hit is `None` exactly when every answer is a miss; otherwise it
/// is the hit of some answer after which every answer is a miss.
pub proof fn lemma_last_hit<H, T>(answers: Seq<Option<(H, T)>>)
    requires
        answers.len() <= usize::MAX,
    ensures
        last_hit(answers) is None <==> forall|i: int|
            0 <= i < answers.len() ==> #[trigger] answers[i] is None,
        last_hit(answers) matches Some(found) ==> {
            &&& found.1 < answers.len()
            &&& answers[found.1 as int] matches Some(hit) && hit.0 == found.0
            &&& forall|j: int| found.1 < j < answers.len() ==> #[trigger] answers[j] is None
        },
    decreases answers.len(),
{
    if answers.len() > 0 {
        let rest = answers.drop_last();
        lemma_last_hit(rest);
        assert forall|i: int| 0 <= i < rest.len() implies rest[i] == answers[i] by {}
        if answers.last() is None {
            if let Some(found) = last_hit(rest) {
                assert(answers[found.1 as int] == rest[found.1 as int]);
                assert forall|j: int| found.1 < j < answers.len() implies #[trigger] answers[j]
                    is None by {
                    if j < rest.len() {
                        assert(answers[j] == rest[j]);
                    }
                }
            }
        }
    }
}

/// Scans objects `0 .. count` in order for the nearest intersection.
/// `test(i, bound)` intersects object `i` with the ray, accepting only hits
/// up to `bound`, and returns the hit with its ray parameter. The bound starts
/// at `t_max` and shrinks to the parameter of each hit found, so a later
/// object is only reported when it is no farther. The result is the last hit
/// found, with the index of the object that gave it, or `None` when no test
/// hit.
pub fn nearest_hit<H, T, F>(count: usize, t_max: T, test: &F) -> (r: Option<(H, usize)>)
    where
        T: Copy,
        F: Fn(usize, T) -> Option<(H, T)>,
    requires
        forall|i: usize, bound: T| i < count ==> test.requires((i, bound)),
    ensures
        exists|answers: Seq<Option<(H, T)>>|
            {
                &&& answers.len() == count
                &&& is_scan(answers, t_max, *test)
                &&& r == last_hit(answers)
                &&& r is None <==> forall|i: int| 0 <= i < count ==> #[trigger] answers[i] is None
                &&& r matches Some(found) ==> {
                    &&& found.1 < count
                    &&& answers[found.1 as int] matches Some(hit) && hit.0 == found.0
                    &&& forall|j: int| found.1 < j < count ==> #[trigger] answers[j] is None
                }
            },
{
    let mut closest: Option<(H, usize)> = None;
    let mut closest_t: T = t_max;
    let ghost mut answers: Seq<Option<(H, T)>> = Seq::empty();
    let mut i: usize = 0;
    while i < count
        invariant
            i <= count,
            answers.len() == i,
            forall|k: usize, bound: T| k < count ==> test.requires((k, bound)),
            is_scan(answers, t_max, *test),
            closest_t == bound_after(answers, t_max),
            closest == last_hit(answers),
        decreases count - i,
    {
        let answer = test(i, closest_t);
        let ghost old_answers = answers;
        proof {
            answers = answers.push(answer);
            assert(answers.take(i as int) =~= old_answers);
            assert(answers.drop_last() =~= old_answers);
            assert forall|k: int| 0 <= k < answers.len() implies test.ensures(
                (k as usize, bound_after(answers.take(k), t_max)),
                #[trigger] answers[k],
            ) by {
                if k < i {
                    assert(answers.take(k) =~= old_answers.take(k));
                    assert(answers[k] == old_answers[k]);
                }
            }
        }
        match answer {
            Some(hit) => {
                closest_t = hit.1;
                closest = Some((hit.0, i));
            },
            None => {},
        }
        i += 1;
    }
    proof {
        lemma_last_hit(answers);
    }
    closest
}

} // verus!
