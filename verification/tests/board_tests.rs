use battlesnake::board::{Board, Ply};
use battlesnake::coord::Coord;
use battlesnake::snake::{Battlesnake, Direction, MAX_HEALTH};

fn snake(id: &str, health: u8, body: Vec<Coord>) -> Battlesnake {
    Battlesnake {
        id: String::from(id),
        health,
        length: body.len(),
        head: body[0],
        body,
    }
}

#[test]
fn test_tick_normal() {
    // Arrange
    let mut board = Board {
        width: 5,
        height: 5,
        food: vec![],
        snakes: vec![Battlesnake {
            id: String::from("abc"),
            health: 50,
            length: 3,
            head: Coord::new(2, 0),
            body: vec![Coord::new(2, 0), Coord::new(1, 0), Coord::new(0, 0)],
        }],
    };
    let mut expected_board = board.clone();

    // Act
    board.tick(&vec![Ply::new(0, Direction::RIGHT)]);
    expected_board.snakes[0].do_move(&Direction::RIGHT);

    // Assert
    assert_eq!(board, expected_board);
}

#[test]
fn test_tick_eat() {
    // Arrange
    let mut board = Board {
        width: 5,
        height: 5,
        food: vec![Coord::new(3, 0), Coord::new(4, 0)],
        snakes: vec![Battlesnake {
            id: String::from("abc"),
            health: 50,
            length: 3,
            head: Coord::new(2, 0),
            body: vec![Coord::new(2, 0), Coord::new(1, 0), Coord::new(0, 0)],
        }],
    };
    let mut expected_board = board.clone();

    // Act
    board.tick(&vec![Ply::new(0, Direction::RIGHT)]);
    expected_board.food.remove(0);
    expected_board.snakes[0].do_move(&Direction::RIGHT);
    expected_board.snakes[0].eat();

    // Assert
    assert_eq!(board, expected_board);
}

#[test]
fn test_die() {
    for test_case in [
        (Direction::UP, false),   // Collide with equal snake
        (Direction::RIGHT, true), // Collide with smaller snake
        (Direction::DOWN, false), // Move off of board
        (Direction::LEFT, false), // Collide with self
    ]
    .iter()
    {
        // Arrange
        let mut board = Board {
            width: 5,
            height: 5,
            food: vec![],
            snakes: vec![
                Battlesnake {
                    id: String::from("abc"),
                    health: 50,
                    length: 3,
                    head: Coord::new(2, 0),
                    body: vec![Coord::new(2, 0), Coord::new(1, 0), Coord::new(0, 0)],
                },
                Battlesnake {
                    id: String::from("def"),
                    health: 50,
                    length: 3,
                    head: Coord::new(2, 1),
                    body: vec![Coord::new(2, 1), Coord::new(2, 2), Coord::new(2, 3)],
                },
                Battlesnake {
                    id: String::from("ghi"),
                    health: 50,
                    length: 2,
                    head: Coord::new(3, 0),
                    body: vec![Coord::new(3, 0), Coord::new(4, 0)],
                },
            ],
        };

        // Act
        board.tick(&vec![Ply::new(0, test_case.0)]);

        // Assert
        assert_eq!(test_case.1, board.is_alive(0));
    }
}

// The search over a zero-valued evaluation scores every branch, and so
// every node, at zero.
#[test]
fn test_minimax() {
    // Arrange
    let board = Board {
        width: 5,
        height: 5,
        food: vec![],
        snakes: vec![
            Battlesnake {
                id: String::from("abc"),
                health: 50,
                length: 3,
                head: Coord::new(2, 0),
                body: vec![Coord::new(2, 0), Coord::new(1, 0), Coord::new(0, 0)],
            },
            Battlesnake {
                id: String::from("def"),
                health: 50,
                length: 3,
                head: Coord::new(2, 1),
                body: vec![Coord::new(2, 1), Coord::new(2, 2), Coord::new(2, 3)],
            },
        ],
    };

    let evaluation = board.minimax(0, &mut vec![], 0, 1, 6);
    assert_eq!(evaluation, 0)
}

#[test]
fn scenario_one_agent_plain_step() {
    let mut board = Board {
        width: 5,
        height: 5,
        food: vec![],
        snakes: vec![snake(
            "abc",
            50,
            vec![Coord::new(2, 0), Coord::new(1, 0), Coord::new(0, 0)],
        )],
    };
    board.tick(&vec![Ply::new(0, Direction::RIGHT)]);
    assert_eq!(board.snakes[0].head, Coord::new(3, 0));
    assert_eq!(
        board.snakes[0].body,
        vec![Coord::new(3, 0), Coord::new(2, 0), Coord::new(1, 0)]
    );
    assert_eq!(board.snakes[0].health, 49);
    assert_eq!(board.snakes[0].length, 3);
}

#[test]
fn scenario_one_agent_eats() {
    let mut board = Board {
        width: 5,
        height: 5,
        food: vec![Coord::new(3, 0), Coord::new(4, 0)],
        snakes: vec![snake(
            "abc",
            50,
            vec![Coord::new(2, 0), Coord::new(1, 0), Coord::new(0, 0)],
        )],
    };
    board.tick(&vec![Ply::new(0, Direction::RIGHT)]);
    assert_eq!(board.snakes[0].head, Coord::new(3, 0));
    assert_eq!(board.snakes[0].body.len(), 4);
    assert_eq!(board.snakes[0].length, 4);
    assert_eq!(board.snakes[0].health, 100);
    assert_eq!(board.food, vec![Coord::new(4, 0)]);
}

#[test]
fn do_move_keeps_length_and_head_cached() {
    let mut s = snake(
        "abc",
        50,
        vec![Coord::new(2, 2), Coord::new(2, 1), Coord::new(2, 0)],
    );
    s.do_move(&Direction::UP);
    assert_eq!(s.body.len(), 3);
    assert_eq!(s.head, Coord::new(2, 3));
    assert_eq!(s.head, s.body[0]);
    assert_eq!(s.health, 49);
}

#[test]
fn do_move_clamps_health_at_zero() {
    let mut s = snake("abc", 0, vec![Coord::new(2, 2), Coord::new(2, 1)]);
    s.do_move(&Direction::UP);
    assert_eq!(s.health, 0);
}

#[test]
fn eat_grows_by_one_and_restores_health() {
    let mut s = snake(
        "abc",
        37,
        vec![Coord::new(2, 2), Coord::new(2, 1), Coord::new(2, 0)],
    );
    s.eat();
    assert_eq!(s.length, 4);
    assert_eq!(s.head, Coord::new(2, 2));
    assert_eq!(s.health, MAX_HEALTH);
    assert_eq!(
        s.body,
        vec![
            Coord::new(2, 2),
            Coord::new(2, 1),
            Coord::new(2, 0),
            Coord::new(2, 0)
        ]
    );
}

#[test]
fn tick_leaves_uncommanded_agents_unchanged() {
    let mut board = Board {
        width: 7,
        height: 7,
        food: vec![Coord::new(6, 6)],
        snakes: vec![
            snake(
                "abc",
                50,
                vec![Coord::new(2, 0), Coord::new(1, 0), Coord::new(0, 0)],
            ),
            snake(
                "def",
                31,
                vec![Coord::new(5, 5), Coord::new(5, 4), Coord::new(5, 3)],
            ),
        ],
    };
    let bystander = board.snakes[1].clone();
    board.tick(&vec![Ply::new(0, Direction::RIGHT)]);
    assert_eq!(board.snakes[1], bystander);
}

#[test]
fn tick_same_food_first_ply_wins() {
    // Both agents step onto (3, 0); the first commanded one eats, the
    // second only moves, and the coordinate is consumed once.
    let mut board = Board {
        width: 7,
        height: 7,
        food: vec![Coord::new(3, 0)],
        snakes: vec![
            snake(
                "abc",
                50,
                vec![Coord::new(2, 0), Coord::new(1, 0), Coord::new(0, 0)],
            ),
            snake(
                "def",
                50,
                vec![Coord::new(4, 0), Coord::new(5, 0), Coord::new(6, 0)],
            ),
        ],
    };
    board.tick(&vec![
        Ply::new(0, Direction::RIGHT),
        Ply::new(1, Direction::LEFT),
    ]);
    assert_eq!(board.snakes[0].length, 4);
    assert_eq!(board.snakes[0].health, 100);
    assert_eq!(board.snakes[1].length, 3);
    assert_eq!(board.snakes[1].health, 49);
    assert_eq!(board.food, vec![]);
}

#[test]
fn is_alive_death_causes() {
    // A lone healthy agent in the middle of the board is alive.
    let base = |body: Vec<Coord>, health: u8| Board {
        width: 5,
        height: 5,
        food: vec![],
        snakes: vec![snake("abc", health, body)],
    };
    let alive = base(vec![Coord::new(2, 2), Coord::new(2, 1), Coord::new(2, 0)], 50);
    assert!(alive.is_alive(0));

    // Health zero.
    let starved = base(vec![Coord::new(2, 2), Coord::new(2, 1), Coord::new(2, 0)], 0);
    assert!(!starved.is_alive(0));

    // Head out of bounds, one board edge each.
    for body in [
        vec![Coord::new(-1, 2), Coord::new(0, 2)],
        vec![Coord::new(2, -1), Coord::new(2, 0)],
        vec![Coord::new(5, 2), Coord::new(4, 2)],
        vec![Coord::new(2, 5), Coord::new(2, 4)],
    ] {
        let off = base(body, 50);
        assert!(!off.is_alive(0));
    }

    // Head returned onto the agent's own body.
    let tangled = base(
        vec![
            Coord::new(1, 1),
            Coord::new(1, 2),
            Coord::new(2, 2),
            Coord::new(2, 1),
            Coord::new(1, 1),
        ],
        50,
    );
    assert!(!tangled.is_alive(0));
}

#[test]
fn is_alive_cross_agent_rules() {
    let make = |a_body: Vec<Coord>, b_body: Vec<Coord>| Board {
        width: 9,
        height: 9,
        food: vec![],
        snakes: vec![snake("abc", 50, a_body), snake("def", 50, b_body)],
    };

    // Head-to-head against an equal length: mutual loss.
    let equal = make(
        vec![Coord::new(4, 4), Coord::new(3, 4), Coord::new(2, 4)],
        vec![Coord::new(4, 4), Coord::new(5, 4), Coord::new(6, 4)],
    );
    assert!(!equal.is_alive(0));
    assert!(!equal.is_alive(1));

    // Head-to-head against a strictly shorter agent: the longer one wins.
    let longer = make(
        vec![
            Coord::new(4, 4),
            Coord::new(3, 4),
            Coord::new(2, 4),
            Coord::new(1, 4),
        ],
        vec![Coord::new(4, 4), Coord::new(5, 4)],
    );
    assert!(longer.is_alive(0));
    assert!(!longer.is_alive(1));

    // Head on another agent's body cell: dead, the other is unharmed.
    let rammed = make(
        vec![Coord::new(5, 5), Coord::new(4, 5), Coord::new(3, 5)],
        vec![Coord::new(5, 6), Coord::new(5, 5), Coord::new(5, 4)],
    );
    assert!(!rammed.is_alive(0));
    assert!(rammed.is_alive(1));
}

#[test]
fn do_move_saturates_at_grid_edge() {
    // A head already at the representable edge stays there instead of
    // wrapping around, and remains off every board.
    let mut board = Board {
        width: 5,
        height: 5,
        food: vec![],
        snakes: vec![snake(
            "abc",
            50,
            vec![Coord::new(i8::MAX, 0), Coord::new(i8::MAX - 1, 0)],
        )],
    };
    board.tick(&vec![Ply::new(0, Direction::RIGHT)]);
    assert_eq!(board.snakes[0].head, Coord::new(i8::MAX, 0));
    assert!(!board.is_alive(0));
}

#[test]
fn evaluate_is_zero() {
    let board = Board {
        width: 5,
        height: 5,
        food: vec![],
        snakes: vec![snake("abc", 50, vec![Coord::new(2, 2), Coord::new(2, 1)])],
    };
    assert_eq!(board.evaluate(0), 0);
}

#[test]
fn minimax_returns_accumulator_unchanged() {
    let board = Board {
        width: 5,
        height: 5,
        food: vec![],
        snakes: vec![
            snake("abc", 50, vec![Coord::new(2, 0), Coord::new(1, 0)]),
            snake("def", 50, vec![Coord::new(2, 3), Coord::new(2, 4)]),
        ],
    };
    let mut plies = vec![Ply::new(0, Direction::UP)];
    let value = board.minimax(1, &mut plies, 0, 1, 4);
    assert_eq!(value, 0);
    assert_eq!(plies.len(), 1);
    assert_eq!(plies[0].snake_index, 0);
}

#[test]
fn minimax_terminates_on_larger_board() {
    let snakes = vec![
        snake(
            "abc",
            90,
            vec![Coord::new(5, 5), Coord::new(5, 4), Coord::new(5, 3)],
        ),
        snake(
            "def",
            90,
            vec![Coord::new(8, 8), Coord::new(8, 7), Coord::new(8, 6)],
        ),
    ];
    let board = Board {
        width: 11,
        height: 11,
        food: vec![Coord::new(0, 0), Coord::new(6, 5), Coord::new(10, 10)],
        snakes,
    };
    let value = board.minimax(0, &mut vec![], 0, 1, 6);
    assert_eq!(value, 0);
}

#[test]
fn choose_move_answers_even_when_doomed() {
    // On a one-cell board every move is fatal; a direction is still owed.
    let board = Board {
        width: 1,
        height: 1,
        food: vec![],
        snakes: vec![snake("abc", 50, vec![Coord::new(0, 0)])],
    };
    assert_eq!(board.choose_move(0, 0, 2), Direction::UP);
}

#[test]
fn choose_move_breaks_ties_in_enumeration_order() {
    // Every candidate scores zero under the stub evaluation, so the first
    // candidate in enumeration order must be returned.
    let board = Board {
        width: 5,
        height: 5,
        food: vec![],
        snakes: vec![
            snake(
                "abc",
                50,
                vec![Coord::new(2, 0), Coord::new(1, 0), Coord::new(0, 0)],
            ),
            snake(
                "def",
                50,
                vec![Coord::new(2, 3), Coord::new(2, 4), Coord::new(2, 5)],
            ),
        ],
    };
    // Neck is left of the head: candidates are UP, RIGHT, DOWN.
    assert_eq!(board.choose_move(0, 1, 4), Direction::UP);

    // Neck above the head: UP is blocked, RIGHT comes first.
    let board2 = Board {
        width: 5,
        height: 5,
        food: vec![],
        snakes: vec![
            snake(
                "abc",
                50,
                vec![Coord::new(2, 2), Coord::new(2, 3), Coord::new(2, 4)],
            ),
            snake(
                "def",
                50,
                vec![Coord::new(0, 0), Coord::new(0, 1), Coord::new(0, 2)],
            ),
        ],
    };
    assert_eq!(board2.choose_move(0, 1, 4), Direction::RIGHT);
}
