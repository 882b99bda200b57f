use battle_snake_rust::domain::{Battlesnake, Board, Coord, Direction};
use battle_snake_rust::logic::food_finder::get_next_step;
use battle_snake_rust::logic::move_validator::get_valid_moves;

#[test]
fn get_correct_next_step() {
    let enemy = Battlesnake {
        id: String::from("enemy"),
        name: String::from("enemy"),
        health: 20,
        length: 4,
        body: vec![
            Coord::new(6, 3),
            Coord::new(5, 3),
            Coord::new(4, 3),
            Coord::new(3, 3),
            Coord::new(2, 3),
        ],
        head: Coord::new(6, 3),
        latency: String::from("test"),
        shout: None,
    };

    let board = Board {
        height: 10,
        width: 10,
        food: vec![Coord::new(5, 2)],
        snakes: vec![enemy],
        hazards: vec![],
    };

    let battlesnake = Battlesnake {
        id: String::from("test"),
        name: String::from("test"),
        health: 20,
        length: 4,
        body: vec![
            Coord::new(5, 4),
            Coord::new(5, 5),
            Coord::new(4, 5),
            Coord::new(4, 5),
        ],
        head: Coord::new(5, 4),
        latency: String::from("test"),
        shout: None,
    };

    let valid_moves = get_valid_moves(&board, &battlesnake);
    let safe_moves = valid_moves;

    let next_step = get_next_step(&board, &battlesnake, &safe_moves);

    assert_eq!(next_step, Direction::Right(Coord::new(6, 4)))
}

// On an open board, an agent of length one at (5,5) with food at (5,8) must
// start up: the shortest route is straight toward the food.
#[test]
fn open_board_goes_straight_to_food() {
    let board = Board {
        height: 10,
        width: 10,
        food: vec![Coord::new(5, 8)],
        snakes: vec![],
        hazards: vec![],
    };

    let you = Battlesnake {
        id: String::from("test"),
        name: String::from("test"),
        health: 20,
        length: 1,
        body: vec![Coord::new(5, 5)],
        head: Coord::new(5, 5),
        latency: String::from("test"),
        shout: None,
    };

    let options = vec![
        Direction::Up(Coord::new(5, 6)),
        Direction::Right(Coord::new(6, 5)),
        Direction::Down(Coord::new(5, 4)),
        Direction::Left(Coord::new(4, 5)),
    ];

    let next_step = get_next_step(&board, &you, &options);

    assert_eq!(next_step, Direction::Up(Coord::new(5, 6)));
}

// The agent almost encircles the food: the pocket only opens where its own
// simulated body will have moved on. The search must route around the coil
// through the vacating tail side rather than into a self-trap.
#[test]
fn routes_around_own_body() {
    let board = Board {
        height: 5,
        width: 5,
        food: vec![Coord::new(2, 2)],
        snakes: vec![],
        hazards: vec![],
    };

    let you = Battlesnake {
        id: String::from("test"),
        name: String::from("test"),
        health: 20,
        length: 8,
        body: vec![
            Coord::new(2, 0),
            Coord::new(2, 1),
            Coord::new(1, 1),
            Coord::new(1, 2),
            Coord::new(1, 3),
            Coord::new(2, 3),
            Coord::new(3, 3),
            Coord::new(3, 2),
        ],
        head: Coord::new(2, 0),
        latency: String::from("test"),
        shout: None,
    };

    let options = get_valid_moves(&board, &you);
    assert_eq!(
        options,
        vec![
            Direction::Right(Coord::new(3, 0)),
            Direction::Left(Coord::new(1, 0)),
        ]
    );

    let next_step = get_next_step(&board, &you, &options);

    assert_eq!(next_step, Direction::Right(Coord::new(3, 0)));
}

// A candidate whose destination already holds food is taken outright, even
// when it is not the first candidate supplied.
#[test]
fn picks_adjacent_food() {
    let board = Board {
        height: 5,
        width: 5,
        food: vec![Coord::new(2, 1)],
        snakes: vec![],
        hazards: vec![],
    };

    let you = Battlesnake {
        id: String::from("test"),
        name: String::from("test"),
        health: 20,
        length: 1,
        body: vec![Coord::new(2, 2)],
        head: Coord::new(2, 2),
        latency: String::from("test"),
        shout: None,
    };

    let options = vec![
        Direction::Up(Coord::new(2, 3)),
        Direction::Down(Coord::new(2, 1)),
    ];

    let next_step = get_next_step(&board, &you, &options);

    assert_eq!(next_step, Direction::Down(Coord::new(2, 1)));
}

// No food anywhere: the search falls back to the first supplied candidate.
#[test]
fn falls_back_to_first_option_without_food() {
    let board = Board {
        height: 3,
        width: 3,
        food: vec![],
        snakes: vec![],
        hazards: vec![],
    };

    let you = Battlesnake {
        id: String::from("test"),
        name: String::from("test"),
        health: 20,
        length: 1,
        body: vec![Coord::new(1, 1)],
        head: Coord::new(1, 1),
        latency: String::from("test"),
        shout: None,
    };

    let options = vec![
        Direction::Down(Coord::new(1, 0)),
        Direction::Up(Coord::new(1, 2)),
    ];

    let next_step = get_next_step(&board, &you, &options);

    assert_eq!(next_step, Direction::Down(Coord::new(1, 0)));
}
