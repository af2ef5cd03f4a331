use lovrle::car::CarBuilder;
use lovrle::road::Road;

#[test]
fn car_update_works() {
    let cars = vec![CarBuilder::default().build().unwrap()];
    let mut road = Road::new(Vec::new(), cars, 20, 3, 3).unwrap();

    road.cars_update().unwrap();
}

#[test]
fn car_update_works_as_expected() {
    let start_front = 10;
    let slow_acc = 2;
    let cars = vec![
        CarBuilder::default()
            .with_front_at(start_front)
            .with_slow_acceleration(slow_acc)
            .with_speed(0)
            .with_deceleration_prob(0)
            .unwrap()
            .build()
            .unwrap(),
    ];
    let mut road = Road::new(Vec::new(), cars, 20, 3, 3).unwrap();

    road.cars_update().unwrap();

    let end_front = road.get_car(0).front;

    assert_eq!(end_front - start_front, slow_acc);
}
