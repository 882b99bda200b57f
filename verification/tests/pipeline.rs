use battle_snake_rust::domain::{Battlesnake, Board, Coord, Direction};
use battle_snake_rust::logic::get_move;

// The documented reference scenario: a 10x10 board, the agent above an
// opposing snake of equal length, food behind the enemy line. No winning
// collision exists, no candidate keeps clear of the enemy, and the search
// reaches the food fastest around the right flank.
#[test]
fn end_to_end_reference_scenario() {
    let enemy = Battlesnake {
        id: String::from("enemy"),
        name: String::from("enemy"),
        health: 20,
        length: 4,
        body: vec![
            Coord::new(6, 3),
            Coord::new(5, 3),
            Coord::new(4, 3),
            Coord::new(3, 3),
            Coord::new(2, 3),
        ],
        head: Coord::new(6, 3),
        latency: String::from("test"),
        shout: None,
    };

    let board = Board {
        height: 10,
        width: 10,
        food: vec![Coord::new(5, 2)],
        snakes: vec![enemy],
        hazards: vec![],
    };

    let you = Battlesnake {
        id: String::from("test"),
        name: String::from("test"),
        health: 20,
        length: 4,
        body: vec![
            Coord::new(5, 4),
            Coord::new(5, 5),
            Coord::new(4, 5),
            Coord::new(4, 5),
        ],
        head: Coord::new(5, 4),
        latency: String::from("test"),
        shout: None,
    };

    let chosen = get_move(&board, &you);

    assert_eq!(chosen.as_str(), "right");
    assert_eq!(chosen, Direction::Right(Coord::new(6, 4)));
}

// With no legal move at all, the decision is always the fixed default label.
#[test]
fn boxed_in_agent_gets_default_move() {
    let board = Board {
        height: 1,
        width: 1,
        food: vec![],
        snakes: vec![],
        hazards: vec![],
    };

    let you = Battlesnake {
        id: String::from("test"),
        name: String::from("test"),
        health: 20,
        length: 1,
        body: vec![Coord::new(0, 0)],
        head: Coord::new(0, 0),
        latency: String::from("test"),
        shout: None,
    };

    let chosen = get_move(&board, &you);

    assert_eq!(chosen.as_str(), "up");
    assert_eq!(chosen, Direction::Up(Coord::new(0, 1)));
}

// A winning head-on collision takes priority over everything else: the
// combat recommendation is emitted even though food lies the other way.
#[test]
fn combat_recommendation_takes_priority() {
    let enemy = Battlesnake {
        id: String::from("enemy"),
        name: String::from("enemy"),
        health: 20,
        length: 2,
        body: vec![Coord::new(5, 3), Coord::new(4, 3)],
        head: Coord::new(5, 3),
        latency: String::from("test"),
        shout: None,
    };

    let board = Board {
        height: 10,
        width: 10,
        food: vec![Coord::new(9, 9)],
        snakes: vec![enemy],
        hazards: vec![],
    };

    let you = Battlesnake {
        id: String::from("test"),
        name: String::from("test"),
        health: 20,
        length: 4,
        body: vec![
            Coord::new(7, 3),
            Coord::new(8, 3),
            Coord::new(9, 3),
            Coord::new(9, 4),
        ],
        head: Coord::new(7, 3),
        latency: String::from("test"),
        shout: None,
    };

    let chosen = get_move(&board, &you);

    // The left candidate's destination (6,3) touches the shorter enemy's
    // head at (5,3): a guaranteed win.
    assert_eq!(chosen, Direction::Left(Coord::new(6, 3)));
}

// The direction labels and carried coordinates are exposed as stated.
#[test]
fn direction_labels_and_coords() {
    let c = Coord::new(3, 7);
    assert_eq!(Direction::Up(c).as_str(), "up");
    assert_eq!(Direction::Down(c).as_str(), "down");
    assert_eq!(Direction::Right(c).as_str(), "right");
    assert_eq!(Direction::Left(c).as_str(), "left");
    assert_eq!(*Direction::Up(c).get_coord(), c);
    assert_eq!(*Direction::Left(c).get_coord(), Coord::new(3, 7));
}
