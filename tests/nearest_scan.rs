use rt::scene::nearest_hit;

/// An object that the ray meets at parameter `t`, if at all.
fn test_against(ts: &[Option<f64>]) -> impl Fn(usize, f64) -> Option<(usize, f64)> + '_ {
    move |i: usize, bound: f64| match ts[i] {
        Some(t) if t > 0.001 && t <= bound => Some((100 + i, t)),
        _ => None,
    }
}

#[test]
fn nearest_wins_whatever_the_order() {
    let ts = [Some(7.0), Some(3.0), None, Some(5.0)];
    assert_eq!(nearest_hit(ts.len(), f64::INFINITY, &test_against(&ts)), Some((101, 1)));
    let ts = [Some(3.0), Some(7.0), None, Some(5.0)];
    assert_eq!(nearest_hit(ts.len(), f64::INFINITY, &test_against(&ts)), Some((100, 0)));
    let ts = [None, Some(5.0), Some(7.0), Some(3.0)];
    assert_eq!(nearest_hit(ts.len(), f64::INFINITY, &test_against(&ts)), Some((103, 3)));
}

#[test]
fn no_objects_no_hit() {
    let ts: [Option<f64>; 0] = [];
    assert_eq!(nearest_hit(0, f64::INFINITY, &test_against(&ts)), None);
}

#[test]
fn all_miss_no_hit() {
    let ts = [None, None, Some(0.0005)];
    assert_eq!(nearest_hit(ts.len(), f64::INFINITY, &test_against(&ts)), None);
}

#[test]
fn bound_excludes_far_hits() {
    let ts = [Some(12.0), Some(9.0)];
    assert_eq!(nearest_hit(ts.len(), 10.0, &test_against(&ts)), Some((101, 1)));
    assert_eq!(nearest_hit(ts.len(), 8.0, &test_against(&ts)), None);
}

#[test]
fn equal_parameters_keep_the_later_object() {
    let ts = [Some(4.0), Some(4.0)];
    assert_eq!(nearest_hit(ts.len(), f64::INFINITY, &test_against(&ts)), Some((101, 1)));
}

#[test]
fn each_test_gets_the_latest_bound() {
    let seen = std::cell::RefCell::new(Vec::new());
    let test = |i: usize, bound: u32| {
        seen.borrow_mut().push(bound);
        let t = [50u32, 80, 20, 30][i];
        if t <= bound {
            Some((i, t))
        } else {
            None
        }
    };
    assert_eq!(nearest_hit(4, 100u32, &test), Some((2, 2)));
    assert_eq!(*seen.borrow(), vec![100, 50, 50, 20]);
}
