use heapcheck::guess::Guess;
use heapcheck::house::HouseBuilder;
use heapcheck::markers::{Array, ClickEvent, Event, HoverEvent};
use heapcheck::people::{func1, func2, func3, Person};
use heapcheck::shapes::Rectangle;

#[test]
fn rectangle_area_and_width() {
    let mut rect = Rectangle { width: 30, height: 50 };
    assert_eq!(rect.area(), 1500);
    rect.set_width(40);
    assert_eq!(rect.width, 40);
    assert_eq!(rect.height, 50);

    let square = Rectangle::square(20);
    assert_eq!(square.area(), 400);
    assert!(square.is_square());
    assert!(!rect.is_square());
}

#[test]
fn rectangle_holding_and_scaling() {
    let big = Rectangle { width: 30, height: 50 };
    let small = Rectangle { width: 10, height: 40 };
    assert!(big.can_hold(&small));
    assert!(!small.can_hold(&big));

    let mut r = Rectangle { width: 3, height: 4 };
    r.scale(5);
    assert_eq!(r.width, 15);
    assert_eq!(r.height, 20);

    assert_eq!(r.destroy(), 300);
}

#[test]
fn person_lifecycle() {
    let mut person = Person::new("Alice", 30);
    assert_eq!(person.name, "Alice");
    assert_eq!(person.age, 30);

    person.have_birthday();
    assert_eq!(person.age, 31);

    assert_eq!(person.into_name(), "Alice");
}

#[test]
fn owners_and_borrowers() {
    let name = String::from("Shajib Ahmed");
    let borrower = func1(&name);
    assert_eq!(borrower.name, "Shajib Ahmed");

    assert_eq!(func2().name, "Shajib Bhattacharjee");
    assert_eq!(func3().name, "Shajib Chaudhuri");
}

#[test]
fn house_builder_chosen_fields() {
    let house = HouseBuilder::new().bedrooms(4).bathrooms(2).square_feet(2500).build();
    assert_eq!(house.bedrooms, 4);
    assert_eq!(house.bathrooms, 2);
    assert_eq!(house.square_feet, 2500);
}

#[test]
fn house_builder_defaults() {
    let house = HouseBuilder::new().build();
    assert_eq!(house.bedrooms, 3);
    assert_eq!(house.bathrooms, 2);
    assert_eq!(house.square_feet, 2000);

    let partly = HouseBuilder::new().bedrooms(1).build();
    assert_eq!(partly.bedrooms, 1);
    assert_eq!(partly.bathrooms, 2);
    assert_eq!(partly.square_feet, 2000);
}

#[test]
fn guess_in_range() {
    let g = Guess::new(50);
    assert_eq!(g.value(), 50);
    assert_eq!(Guess::new(1).value(), 1);
    assert_eq!(Guess::new(100).value(), 100);
}

#[test]
fn markers_and_arrays() {
    let _click = Event::<ClickEvent>::new();
    let _hover = Event::<HoverEvent>::new();

    let arr: Array<i32, 10> = Array::new(0);
    assert_eq!(arr.len(), 10);
    assert_eq!(arr.data, [0; 10]);

    let filled: Array<u8, 3> = Array::new(9);
    assert_eq!(filled.data, [9, 9, 9]);
}
