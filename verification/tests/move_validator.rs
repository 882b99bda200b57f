use battle_snake_rust::domain::{Battlesnake, Board, Coord, Direction};
use battle_snake_rust::logic::move_validator::{
    get_valid_moves, is_inside_bounds, is_not_a_hazard, is_not_an_enemy, is_not_own_body,
};

struct TestCase {
    body: Vec<Coord>,
    head: Coord,
    next_move: Coord,
    snakes: Vec<Battlesnake>,
    hazards: Vec<Coord>,
}

impl TestCase {
    fn new(
        body: Vec<Coord>,
        head: Coord,
        next_move: Coord,
        snakes: Vec<Battlesnake>,
        hazards: Vec<Coord>,
    ) -> Self {
        TestCase {
            body,
            head,
            next_move,
            snakes,
            hazards,
        }
    }
}

fn setup_game(
    body: &Vec<Coord>,
    head: Coord,
    snakes: Vec<Battlesnake>,
    hazards: &Vec<Coord>,
) -> (Board, Battlesnake) {
    let board = Board {
        height: 5,
        width: 5,
        food: vec![],
        snakes,
        hazards: hazards.to_vec(),
    };

    let battlesnake = Battlesnake {
        id: String::from("test"),
        name: String::from("test"),
        health: 20,
        length: (body.len() + 1) as i32,
        body: body.to_vec(),
        head,
        latency: String::from("test"),
        shout: None,
    };

    (board, battlesnake)
}

#[test]
fn not_inside_bound() {
    let test_cases = vec![
        // Go left outside bounds
        TestCase::new(
            vec![Coord::new(0, 0), Coord::new(1, 0), Coord::new(2, 0)],
            Coord::new(0, 0),
            Coord::new(-1, 0),
            vec![],
            vec![],
        ),
        // Go top outside bounds
        TestCase::new(
            vec![Coord::new(0, 0), Coord::new(1, 0), Coord::new(2, 0)],
            Coord::new(0, 0),
            Coord::new(0, -1),
            vec![],
            vec![],
        ),
        // Go right outside bounds
        TestCase::new(
            vec![Coord::new(4, 4), Coord::new(4, 3), Coord::new(4, 2)],
            Coord::new(4, 4),
            Coord::new(5, 4),
            vec![],
            vec![],
        ),
        // Go down outside bounds
        TestCase::new(
            vec![Coord::new(4, 4), Coord::new(4, 3), Coord::new(4, 2)],
            Coord::new(4, 4),
            Coord::new(4, 5),
            vec![],
            vec![],
        ),
    ];

    for test_case in test_cases.iter() {
        let (board, _) = setup_game(
            &test_case.body,
            test_case.head,
            test_case.snakes.clone(),
            &test_case.hazards,
        );

        let is_valid = is_inside_bounds(&board, &test_case.next_move);
        assert_eq!(false, is_valid);
    }
}

#[test]
fn inside_bound() {
    let test_cases = vec![
        TestCase::new(
            vec![Coord::new(0, 0), Coord::new(1, 0), Coord::new(2, 0)],
            Coord::new(0, 0),
            Coord::new(0, 1),
            vec![],
            vec![],
        ),
        TestCase::new(
            vec![Coord::new(4, 4), Coord::new(4, 3), Coord::new(4, 2)],
            Coord::new(4, 4),
            Coord::new(3, 4),
            vec![],
            vec![],
        ),
    ];

    for test_case in test_cases.iter() {
        let (board, _) = setup_game(
            &test_case.body,
            test_case.head,
            test_case.snakes.clone(),
            &test_case.hazards,
        );

        let is_valid = is_inside_bounds(&board, &test_case.next_move);
        assert_eq!(true, is_valid);
    }
}

#[test]
fn crash_with_body() {
    let test_cases = vec![
        TestCase::new(
            vec![Coord::new(3, 0), Coord::new(2, 0), Coord::new(1, 0)],
            Coord::new(3, 0),
            Coord::new(2, 0),
            vec![],
            vec![],
        ),
        TestCase::new(
            vec![
                Coord::new(2, 2),
                Coord::new(3, 2),
                Coord::new(3, 1),
                Coord::new(2, 1),
                Coord::new(1, 1),
            ],
            Coord::new(2, 2),
            Coord::new(2, 1),
            vec![],
            vec![],
        ),
    ];

    for test_case in test_cases.iter() {
        let (_, battlesnake) = setup_game(
            &test_case.body,
            test_case.head,
            test_case.snakes.clone(),
            &test_case.hazards,
        );

        let is_valid = is_not_own_body(&battlesnake, &test_case.next_move);
        assert_eq!(false, is_valid);
    }
}

#[test]
fn not_crash_with_body() {
    let test_cases = vec![TestCase::new(
        vec![
            Coord::new(1, 2),
            Coord::new(2, 2),
            Coord::new(3, 2),
            Coord::new(3, 1),
            Coord::new(2, 1),
            Coord::new(1, 1),
        ],
        Coord::new(1, 2),
        Coord::new(1, 1),
        vec![],
        vec![],
    )];

    for test_case in test_cases.iter() {
        let (_, battlesnake) = setup_game(
            &test_case.body,
            test_case.head,
            test_case.snakes.clone(),
            &test_case.hazards,
        );

        let is_valid = is_not_own_body(&battlesnake, &test_case.next_move);
        assert_eq!(true, is_valid);
    }
}

#[test]
fn crash_with_enemy() {
    let test_cases = vec![TestCase::new(
        vec![Coord::new(1, 2), Coord::new(2, 2)],
        Coord::new(1, 2),
        Coord::new(1, 1),
        vec![Battlesnake {
            id: String::from("enemy_id"),
            name: String::from("enemy"),
            health: 10,
            body: vec![Coord::new(1, 1), Coord::new(2, 1)],
            head: Coord::new(1, 1),
            length: 2,
            latency: String::from(""),
            shout: None,
        }],
        vec![],
    )];

    for test_case in test_cases.iter() {
        let (board, _) = setup_game(
            &test_case.body,
            test_case.head,
            test_case.snakes.clone(),
            &test_case.hazards,
        );

        let is_valid = is_not_an_enemy(&board, &test_case.next_move);
        assert_eq!(false, is_valid);
    }
}

#[test]
fn not_crash_with_enemy() {
    let test_cases = vec![TestCase::new(
        vec![Coord::new(1, 2), Coord::new(2, 2)],
        Coord::new(1, 2),
        Coord::new(1, 1),
        vec![Battlesnake {
            id: String::from("enemy_id"),
            name: String::from("enemy"),
            health: 10,
            body: vec![Coord::new(0, 1), Coord::new(1, 1)],
            head: Coord::new(0, 1),
            length: 2,
            latency: String::from(""),
            shout: None,
        }],
        vec![],
    )];

    for test_case in test_cases.iter() {
        let (board, _) = setup_game(
            &test_case.body,
            test_case.head,
            test_case.snakes.clone(),
            &test_case.hazards,
        );

        let is_valid = is_not_an_enemy(&board, &test_case.next_move);
        assert_eq!(true, is_valid);
    }
}

#[test]
fn crash_with_hazard() {
    let test_cases = vec![TestCase::new(
        vec![Coord::new(1, 2), Coord::new(2, 2)],
        Coord::new(1, 2),
        Coord::new(1, 1),
        vec![],
        vec![Coord::new(1, 1)],
    )];

    for test_case in test_cases.iter() {
        let (board, _) = setup_game(
            &test_case.body,
            test_case.head,
            test_case.snakes.clone(),
            &test_case.hazards,
        );

        let is_valid = is_not_a_hazard(&board, &test_case.next_move);
        assert_eq!(false, is_valid);
    }
}

#[test]
fn no_crash_with_hazard() {
    let test_cases = vec![TestCase::new(
        vec![Coord::new(1, 2), Coord::new(2, 2)],
        Coord::new(1, 2),
        Coord::new(1, 3),
        vec![],
        vec![Coord::new(1, 1)],
    )];

    for test_case in test_cases.iter() {
        let (board, _) = setup_game(
            &test_case.body,
            test_case.head,
            test_case.snakes.clone(),
            &test_case.hazards,
        );

        let is_valid = is_not_a_hazard(&board, &test_case.next_move);
        assert_eq!(true, is_valid);
    }
}

#[test]
fn should_get_moves() {
    let body = vec![
        Coord::new(2, 2),
        Coord::new(3, 2),
        Coord::new(3, 1),
        Coord::new(2, 1),
        Coord::new(1, 1),
    ];
    let head = Coord::new(2, 2);
    let (board, battlesnake) = setup_game(&body, head, vec![], &vec![]);
    let valid_moves = get_valid_moves(&board, &battlesnake);
    // The validator enumerates candidates in the fixed order up, right,
    // down, left; here exactly up and left survive.
    let correct_answer = vec![
        Direction::Up(Coord::new(2, 3)),
        Direction::Left(Coord::new(1, 2)),
    ];

    assert_eq!(valid_moves, correct_answer);
}

// A head in the corner leaves exactly the two in-bounds candidates.
#[test]
fn corner_head_keeps_two_moves() {
    let body = vec![Coord::new(0, 0)];
    let head = Coord::new(0, 0);
    let (board, battlesnake) = setup_game(&body, head, vec![], &vec![]);
    let valid_moves = get_valid_moves(&board, &battlesnake);
    let correct_answer = vec![
        Direction::Up(Coord::new(0, 1)),
        Direction::Right(Coord::new(1, 0)),
    ];

    assert_eq!(valid_moves, correct_answer);
}
