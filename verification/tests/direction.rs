use race::direction::{
    reflection_along, rotation_for, trans_for_dirs, DihedralElement, Direction, ROTATIONS,
};

fn directions() -> Vec<Direction> {
    (0..4).map(|i| Direction::from_repr(i).unwrap()).collect()
}

fn elements() -> Vec<DihedralElement> {
    (0..8).map(|i| DihedralElement::from_repr(i).unwrap()).collect()
}

#[test]
fn test_inverses() {
    for d in directions() {
        assert_eq!(d, d.opposite().opposite());
        assert_eq!(d.opposite(), DihedralElement::Rot180 * d);
    }
    for e in elements() {
        assert_eq!(e * e.inverse(), DihedralElement::Id);
        assert_eq!(e.inverse() * e, DihedralElement::Id);
        for d in directions() {
            assert_eq!(e.apply_inverse(d), e.inverse() * d);
        }
    }
}

#[test]
fn test_associativity() {
    for e1 in elements() {
        for e2 in elements() {
            for d in directions() {
                assert_eq!((e1 * e2) * d, e1 * (e2 * d));
            }
            for e3 in elements() {
                assert_eq!((e1 * e2) * e3, e1 * (e2 * e3));
            }
        }
    }
}

#[test]
fn test_identity() {
    for e in elements() {
        assert_eq!(DihedralElement::Id * e, e);
        assert_eq!(e * DihedralElement::Id, e);
    }
    for d in directions() {
        assert_eq!(DihedralElement::Id * d, d);
    }
}

#[test]
fn test_rotation_for() {
    for d1 in directions() {
        for d2 in directions() {
            let e = rotation_for(d1, d2);
            assert_eq!(e.sign(), 1);
            assert_eq!(e * d1, d2);
        }
        for e in ROTATIONS {
            assert_eq!(e, rotation_for(d1, e * d1));
        }
    }
}

#[test]
fn test_reflect_along() {
    for d in directions() {
        let e = reflection_along(d);
        assert_eq!(e.sign(), -1);
        assert_eq!(d, e * d);
    }
}

#[test]
fn test_trans_for_dirs() {
    for from1 in directions() {
        for r in [DihedralElement::Rot90, DihedralElement::Rot270] {
            let from2 = r * from1;
            for e in elements() {
                let f = trans_for_dirs(from1, from2, e * from1, e * from2);
                assert_eq!(e, f);
            }
        }
    }
}

#[test]
fn direction_indices_and_vectors() {
    let expected = [
        (Direction::Up, 0, 0, -1, "Up"),
        (Direction::Right, 1, 1, 0, "Right"),
        (Direction::Down, 2, 0, 1, "Down"),
        (Direction::Left, 3, -1, 0, "Left"),
    ];
    for (d, index, dx, dy, name) in expected {
        assert_eq!(d.repr(), index);
        assert_eq!(Direction::from_repr(index), Some(d));
        assert_eq!(d.dx(), dx);
        assert_eq!(d.dy(), dy);
        assert_eq!(d.name(), name);
    }
    assert_eq!(Direction::from_repr(4), None);
    assert_eq!(DihedralElement::from_repr(8), None);
    assert_eq!(Direction::Up.opposite(), Direction::Down);
    assert_eq!(Direction::Left.opposite(), Direction::Right);
}

#[test]
fn apply_follows_the_index_formula() {
    for e in elements() {
        let shift = (e.repr() & 3) as isize;
        assert_eq!(e.sign(), if e.repr() >= 4 { -1 } else { 1 });
        for d in directions() {
            let i = (e.sign() * (d.repr() as isize) + shift).rem_euclid(4);
            assert_eq!(e.apply(d).repr(), i as usize);
            let j = (e.sign() * (d.repr() as isize - shift)).rem_euclid(4);
            assert_eq!(e.apply_inverse(d).repr(), j as usize);
        }
    }
}

#[test]
fn product_follows_the_index_formula() {
    for a in elements() {
        for b in elements() {
            let flip = (a.repr() ^ b.repr()) & 4;
            let shift =
                ((a.repr() & 3) as isize + a.sign() * ((b.repr() & 3) as isize)).rem_euclid(4);
            assert_eq!((a * b).repr(), flip | (shift as usize));
        }
    }
    assert_eq!(
        DihedralElement::Rot90 * DihedralElement::Flip0,
        DihedralElement::Flip45
    );
    assert_eq!(
        DihedralElement::Flip0 * DihedralElement::Rot90,
        DihedralElement::Flip135
    );
}

#[test]
fn named_elements_act_as_named() {
    assert_eq!(DihedralElement::Rot90 * Direction::Up, Direction::Right);
    assert_eq!(DihedralElement::Rot270 * Direction::Up, Direction::Left);
    assert_eq!(DihedralElement::Flip0 * Direction::Left, Direction::Right);
    assert_eq!(DihedralElement::Flip0 * Direction::Up, Direction::Up);
    assert_eq!(DihedralElement::Flip90 * Direction::Up, Direction::Down);
    assert_eq!(DihedralElement::Flip90 * Direction::Left, Direction::Left);
    assert_eq!(DihedralElement::Flip45 * Direction::Up, Direction::Right);
    assert_eq!(DihedralElement::Flip135 * Direction::Up, Direction::Left);
    assert_eq!(DihedralElement::Rot90.inverse(), DihedralElement::Rot270);
    assert_eq!(DihedralElement::Flip45.inverse(), DihedralElement::Flip45);
}

#[test]
fn trans_for_dirs_on_a_mirrored_pair() {
    let e = trans_for_dirs(Direction::Up, Direction::Left, Direction::Up, Direction::Right);
    assert_eq!(e, DihedralElement::Flip0);
    let e = trans_for_dirs(Direction::Left, Direction::Up, Direction::Up, Direction::Right);
    assert_eq!(e * Direction::Left, Direction::Up);
    assert_eq!(e * Direction::Up, Direction::Right);
    assert_eq!(e, DihedralElement::Rot90);
}
