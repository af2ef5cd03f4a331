use lovrle::road::{Coord, RectangleOccupier};
use std::collections::HashSet;

#[test]
fn rectangle_front_cells_correct() {
    let occupation = RectangleOccupier { front: 2, right: 5, width: 3, length: 3 };

    let front: Vec<Coord> = occupation.front_cells();

    assert_eq!(
        front,
        vec![
            Coord { lat: 3, long: 2 },
            Coord { lat: 4, long: 2 },
            Coord { lat: 5, long: 2 }
        ]
    )
}

#[test]
fn rectangle_occupies_cells_correct() {
    let width = 2;
    let length = 2;
    let area = (width * length) as usize;
    let occupation = RectangleOccupier { front: 2, right: 5, width, length };

    let cells: HashSet<Coord> = occupation.occupied_cells().into_iter().collect();

    assert_eq!(occupation.occupied_cells().len(), area);
    assert_eq!(cells.len(), area);
    assert_eq!(
        cells,
        HashSet::from([
            Coord { lat: 4, long: 1 },
            Coord { lat: 5, long: 1 },
            Coord { lat: 4, long: 2 },
            Coord { lat: 5, long: 2 }
        ])
    );
}

#[test]
fn rectangle_occupies_cells_correct_size_larger() {
    let width = 3;
    let length = 4;
    let area = (width * length) as usize;
    let occupier = RectangleOccupier { front: 2, right: 5, width, length };

    assert_eq!(occupier.occupied_cells().len(), area);
}

#[test]
fn rectangle_occupier_correct_size() {
    let width = 2;
    let length = 2;
    let area = width * length;
    let occupier = RectangleOccupier { front: 2, right: 2, width, length };

    assert_eq!(occupier.occupied_cells().len(), area as usize)
}

#[test]
fn rectangle_occupier_correct_size_v2() {
    let width = 2;
    let length = 2;
    let area = (width * length) as usize;
    let occupier = RectangleOccupier { front: 2, right: 2, width, length };

    assert_eq!(occupier.occupied_cells().len(), area)
}

#[test]
fn rectangle_width_correct() {
    let width = 2;
    let occupier = RectangleOccupier { front: 2, right: 2, width, length: 2 };

    assert_eq!(occupier.width_iterator().len(), width as usize)
}

#[test]
fn rectangle_length_correct() {
    let length = 2;
    let occupier = RectangleOccupier { front: 2, right: 2, width: 2, length };

    assert_eq!(occupier.length_iterator().len(), length as usize)
}
