use book_renderer::intersection::{root_count, Intersection};

fn i(t: f64) -> Intersection<f64> {
    Intersection { t, object: 0 }
}

#[test]
fn test_book_intersection_hits_all_positive() {
    let i1 = i(1.0);
    let i2 = i(2.0);
    let xs = vec![i2, i1];
    let h = Intersection::hit(&xs, &0.0).unwrap();
    assert_eq!(h.t, 1.0);
    assert_eq!(h.object, 0);
}

#[test]
fn test_book_intersection_hits_mixed_positive() {
    let xs = vec![i(1.0), i(-1.0)];
    let h = Intersection::hit(&xs, &0.0).unwrap();
    assert_eq!(h.t, 1.0);
}

#[test]
fn test_book_intersection_hits_all_negative() {
    let xs = vec![i(-1.0), i(-2.0)];
    assert!(Intersection::hit(&xs, &0.0).is_none());
}

#[test]
fn test_book_intersection_is_lowest() {
    let xs = vec![i(5.0), i(7.0), i(-3.0), i(2.0)];
    let h = Intersection::hit(&xs, &0.0).unwrap();
    assert_eq!(h.t, 2.0);
}

#[test]
fn hit_of_nothing_is_none() {
    let xs: Vec<Intersection<f64>> = vec![];
    assert!(Intersection::hit(&xs, &0.0).is_none());
}

#[test]
fn hit_at_zero_counts() {
    let xs = vec![i(3.0), i(0.0)];
    assert_eq!(Intersection::hit(&xs, &0.0).unwrap().t, 0.0);
}

#[test]
fn equal_t_keeps_the_first_object() {
    let xs = vec![
        Intersection { t: 4i64, object: 1 },
        Intersection { t: 4i64, object: 2 },
        Intersection { t: 6i64, object: 0 },
    ];
    let h = Intersection::hit(&xs, &0).unwrap();
    assert_eq!((h.t, h.object), (4, 1));
}

#[test]
fn two_equal_spheres_stay_apart() {
    let xs = vec![
        Intersection { t: 6.0, object: 0 },
        Intersection { t: 4.0, object: 1 },
    ];
    assert_eq!(Intersection::hit(&xs, &0.0).unwrap().object, 1);
}

#[test]
fn sort_by_t_orders_nearest_first() {
    let mut xs = vec![i(6.0), i(-1.0), i(4.0), i(0.5)];
    Intersection::sort_by_t(&mut xs);
    let ts: Vec<f64> = xs.iter().map(|x| x.t).collect();
    assert_eq!(ts, vec![-1.0, 0.5, 4.0, 6.0]);
}

#[test]
fn sort_by_t_keeps_equal_t_in_order() {
    let mut xs = vec![
        Intersection { t: 5i64, object: 0 },
        Intersection { t: 4i64, object: 1 },
        Intersection { t: 5i64, object: 2 },
        Intersection { t: 4i64, object: 3 },
        Intersection { t: 4i64, object: 4 },
    ];
    Intersection::sort_by_t(&mut xs);
    let got: Vec<(i64, usize)> = xs.iter().map(|x| (x.t, x.object)).collect();
    assert_eq!(got, vec![(4, 1), (4, 3), (4, 4), (5, 0), (5, 2)]);
}

#[test]
fn sort_by_t_of_nothing() {
    let mut xs: Vec<Intersection<i64>> = vec![];
    Intersection::sort_by_t(&mut xs);
    assert!(xs.is_empty());
}

#[test]
fn root_count_follows_the_sign_of_the_discriminant() {
    assert_eq!(root_count(&-0.5, &0.0), Some(0));
    assert_eq!(root_count(&0.0, &0.0), Some(1));
    assert_eq!(root_count(&-0.0, &0.0), Some(1));
    assert_eq!(root_count(&4.0, &0.0), Some(2));
    assert_eq!(root_count(&f64::INFINITY, &0.0), Some(2));
    assert_eq!(root_count(&f64::NAN, &0.0), None);
    assert_eq!(root_count(&-3i64, &0), Some(0));
}
