use guessing_game::comer_en_restaurant;
use guessing_game::fachada::recepcion::poner_en_espera;
use guessing_game::parte_de_atras::Desayuno;
use guessing_game::rectangle::{area, Rectangle};
use guessing_game::words::{calculate_length, first_word};

#[test]
fn first_word_stops_at_the_first_space() {
    assert_eq!(first_word("hola mundo"), "hola");
    assert_eq!(first_word("hola"), "hola");
    assert_eq!(first_word(""), "");
    assert_eq!(first_word(" hola"), "");
    assert_eq!(first_word("añejo vino tinto"), "añejo");
}

#[test]
fn length_counts_bytes() {
    assert_eq!(calculate_length(&String::from("hola")), 4);
    assert_eq!(calculate_length(&String::from("")), 0);
    assert_eq!(calculate_length(&String::from("año")), 4);
}

#[test]
fn area_of_a_rectangle() {
    let rect1 = Rectangle { width: 30, height: 50 };
    assert_eq!(area(&rect1), 1500);
    assert_eq!(area(&Rectangle { width: 0, height: 9 }), 0);
    assert_eq!(area(&Rectangle { width: 65535, height: 65537 }), u32::MAX);
}

#[test]
fn summer_breakfast_keeps_the_toast_asked_for() {
    let d = Desayuno::verano("centeno");
    assert_eq!(d.tostada, "centeno");
}

#[test]
fn toast_can_be_changed() {
    let mut d = Desayuno::verano("centeno");
    d.cambiar_tostada("trigo");
    assert_eq!(d.tostada, "trigo");
}

#[test]
fn restaurant_order_ends_on_wheat() {
    poner_en_espera();
    let comer = comer_en_restaurant();
    assert_eq!(comer.tostada, "trigo");
}
