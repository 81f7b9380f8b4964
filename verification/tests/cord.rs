use hexboard::Cord;
use std::ops::Neg;

const UNITS: [Cord; 6] = [
    Cord(1, -1, 0),
    Cord(-1, 1, 0),
    Cord(1, 0, -1),
    Cord(-1, 0, 1),
    Cord(0, 1, -1),
    Cord(0, -1, 1),
];

#[test]
fn add_is_componentwise() {
    assert_eq!(Cord(1, -2, 1) + Cord(3, 4, -7), Cord(4, 2, -6));
    assert_eq!(Cord(0, 0, 0) + Cord(1, 0, -1), Cord(1, 0, -1));
}

#[test]
fn sub_is_componentwise() {
    assert_eq!(Cord(1, -2, 1) - Cord(3, 4, -7), Cord(-2, -6, 8));
    assert_eq!(Cord(2, 0, -2) - Cord(1, 0, -1), Cord(1, 0, -1));
}

#[test]
fn neg_reverses_a_direction() {
    assert_eq!(Cord(1, 0, -1).neg(), Cord(-1, 0, 1));
    assert_eq!(-Cord(0, -1, 1), Cord(0, 1, -1));
    assert_eq!(-Cord(0, 0, 0), Cord(0, 0, 0));
}

#[test]
fn mul_scales_each_component() {
    assert_eq!(Cord(1, 0, -1) * 3, Cord(3, 0, -3));
    assert_eq!(Cord(1, -1, 0) * 0, Cord(0, 0, 0));
    assert_eq!(Cord(0, 1, -1) * -2, Cord(0, -2, 2));
}

#[test]
fn add_then_sub_returns() {
    let p = Cord(2, -3, 1);
    for d in UNITS {
        assert_eq!((p + d) - d, p);
        assert_eq!(p + d + (-d), p);
    }
}

#[test]
fn checked_add_gives_the_sum() {
    assert_eq!(Cord(1, 2, -3).checked_add(Cord(1, 0, -1)), Some(Cord(2, 2, -4)));
}

#[test]
fn checked_add_refuses_overflow() {
    assert_eq!(Cord(isize::MAX, 0, 0).checked_add(Cord(1, 0, -1)), None);
    assert_eq!(Cord(0, isize::MIN, 0).checked_add(Cord(0, -1, 1)), None);
    assert_eq!(Cord(0, 0, isize::MAX).checked_add(Cord(0, 0, 1)), None);
    assert_eq!(
        Cord(isize::MAX, 0, 0).checked_add(Cord(0, 1, -1)),
        Some(Cord(isize::MAX, 1, -1))
    );
}

#[test]
fn six_unit_directions() {
    for d in UNITS {
        assert!(d.is_unit_direction(), "{:?}", d);
        assert!(d.is_linear_vec(), "{:?}", d);
        assert_eq!(d.vec_size(), 1);
    }
}

#[test]
fn only_six_unit_directions() {
    let mut count = 0;
    for x in -2..=2 {
        for y in -2..=2 {
            for z in -2..=2 {
                if Cord(x, y, z).is_unit_direction() {
                    count += 1;
                    assert!(UNITS.contains(&Cord(x, y, z)));
                }
            }
        }
    }
    assert_eq!(count, 6);
}

#[test]
fn not_unit_directions() {
    assert!(!Cord(0, 0, 0).is_unit_direction());
    assert!(!Cord(2, 0, -2).is_unit_direction());
    assert!(!Cord(1, 1, -2).is_unit_direction());
    assert!(!Cord(1, 0, 0).is_unit_direction());
    assert!(!Cord(1, 1, 0).is_unit_direction());
    assert!(!Cord(1, -1, 1).is_unit_direction());
    assert!(!Cord(isize::MIN, isize::MAX, 0).is_unit_direction());
}

#[test]
fn linear_vectors() {
    assert!(Cord(0, 0, 0).is_linear_vec());
    assert!(Cord(3, 0, -3).is_linear_vec());
    assert!(Cord(0, -4, 4).is_linear_vec());
    assert!(Cord(-2, 2, 0).is_linear_vec());
    assert!(!Cord(1, 1, -2).is_linear_vec());
    assert!(!Cord(2, -1, -1).is_linear_vec());
    assert!(!Cord(1, 0, 0).is_linear_vec());
    assert!(!Cord(0, 5, 5).is_linear_vec());
    assert!(!Cord(0, isize::MIN, isize::MIN).is_linear_vec());
}

#[test]
fn vec_size_is_half_the_sum_of_magnitudes() {
    assert_eq!(Cord(0, 0, 0).vec_size(), 0);
    assert_eq!(Cord(3, 0, -3).vec_size(), 3);
    assert_eq!(Cord(1, 1, -2).vec_size(), 2);
    assert_eq!(Cord(-2, 5, -3).vec_size(), 5);
    assert_eq!(Cord(1, 0, 0).vec_size(), 0);
    assert_eq!(Cord(1, 1, 1).vec_size(), 1);
}

#[test]
fn vec_size_of_extreme_components() {
    let half = (isize::MAX as usize) + 1;
    assert_eq!(Cord(isize::MIN, 0, 0).vec_size(), half / 2);
    assert_eq!(Cord(isize::MIN, isize::MIN, isize::MIN).vec_size(), half / 2 * 3);
    assert_eq!(Cord(isize::MAX, isize::MIN, 1).vec_size(), half);
}

#[test]
fn distance_is_half_the_sum_of_differences() {
    assert_eq!(Cord(0, 0, 0).distance(Cord(0, 0, 0)), 0);
    assert_eq!(Cord(0, 0, 0).distance(Cord(1, 0, -1)), 1);
    assert_eq!(Cord(-1, 0, 1).distance(Cord(2, 0, -2)), 3);
    assert_eq!(Cord(-2, 1, 1).distance(Cord(2, -2, 0)), 4);
    assert_eq!(Cord(1, 2, -3).distance(Cord(-1, -2, 3)), 6);
}

#[test]
fn distance_is_symmetric() {
    let a = Cord(-2, 1, 1);
    let b = Cord(3, -4, 1);
    assert_eq!(a.distance(b), b.distance(a));
    assert_eq!(a.distance(b), 5);
}

#[test]
fn distance_across_the_whole_range() {
    let a = Cord(isize::MIN, 0, 0);
    let b = Cord(isize::MAX, 0, 0);
    assert_eq!(a.distance(b), usize::MAX / 2);
}

#[test]
fn collinear_cells() {
    let o = Cord(0, 0, 0);
    assert!(o.is_linear_to(o));
    assert!(o.is_linear_to(Cord(2, 0, -2)));
    assert!(o.is_linear_to(Cord(0, -3, 3)));
    assert!(Cord(-1, 0, 1).is_linear_to(Cord(-1, 2, -1)));
    assert!(Cord(1, -2, 1).is_linear_to(Cord(-1, 0, 1)));
    assert!(!o.is_linear_to(Cord(1, 1, -2)));
    assert!(!Cord(-1, 0, 1).is_linear_to(Cord(1, -1, 0)));
    assert!(!Cord(isize::MIN, 0, 0).is_linear_to(Cord(isize::MAX, 1, 0)));
}

#[test]
fn collinear_is_symmetric() {
    let a = Cord(-1, 0, 1);
    for b in [Cord(2, 0, -2), Cord(1, -1, 0), Cord(-1, 2, -1), Cord(0, 0, 0)] {
        assert_eq!(a.is_linear_to(b), b.is_linear_to(a));
    }
}

#[test]
fn dir_is_the_step_towards_the_other() {
    let o = Cord(0, 0, 0);
    for d in UNITS {
        assert_eq!(o.dir(d), d);
        assert_eq!(o.dir(d * 2), d);
        assert_eq!((d * 3).dir(o), -d);
        assert_eq!(Cord(1, -3, 2).dir(Cord(1, -3, 2) + d * 4), d);
    }
}

#[test]
fn dir_of_a_cell_to_itself_is_zero() {
    assert_eq!(Cord(2, -1, -1).dir(Cord(2, -1, -1)), Cord(0, 0, 0));
}

#[test]
fn linedraw_steps_from_end_to_end() {
    assert_eq!(
        Cord(-1, 0, 1).linedraw(Cord(2, 0, -2)),
        vec![Cord(-1, 0, 1), Cord(0, 0, 0), Cord(1, 0, -1), Cord(2, 0, -2)]
    );
    assert_eq!(
        Cord(0, 2, -2).linedraw(Cord(0, 0, 0)),
        vec![Cord(0, 2, -2), Cord(0, 1, -1), Cord(0, 0, 0)]
    );
    assert_eq!(
        Cord(1, -1, 0).linedraw(Cord(0, 0, 0)),
        vec![Cord(1, -1, 0), Cord(0, 0, 0)]
    );
}

#[test]
fn linedraw_of_one_cell() {
    assert_eq!(Cord(1, 1, -2).linedraw(Cord(1, 1, -2)), vec![Cord(1, 1, -2)]);
}

#[test]
fn linedraw_has_distance_plus_one_cells() {
    let a = Cord(-3, 1, 2);
    for d in UNITS {
        for k in 0..5 {
            let b = a + d * k;
            let line = a.linedraw(b);
            assert_eq!(line.len(), a.distance(b) + 1);
            assert_eq!(line.len(), k as usize + 1);
            assert_eq!(line[0], a);
            assert_eq!(line[line.len() - 1], b);
            for i in 1..line.len() {
                assert_eq!(line[i] - line[i - 1], d);
            }
        }
    }
}

#[test]
fn linedraw_near_the_largest_integer() {
    let a = Cord(isize::MAX - 2, 0, isize::MIN + 2);
    let b = Cord(isize::MAX, 0, isize::MIN);
    assert_eq!(
        a.linedraw(b),
        vec![a, Cord(isize::MAX - 1, 0, isize::MIN + 1), b]
    );
}
