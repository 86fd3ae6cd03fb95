use rusty_rover::rover::{
    get_next_heading, is_valid_heading, is_valid_move, parse_input_commands, parse_rover_commands,
    parse_rover_to_deploy, parse_user_plateau, simulate_rover_move, will_not_collide, InputCommand,
    PositionAndHeading, RoverError,
};

fn single_rover(bound: (i32, i32), x: i32, y: i32, heading: char, commands: &str) -> InputCommand {
    InputCommand {
        ur_plateau: bound,
        rovers_to_deploy: vec![(PositionAndHeading { x, y, heading }, commands.to_string())],
    }
}

fn final_pose(input: InputCommand) -> PositionAndHeading {
    let output = simulate_rover_move(input).unwrap();
    assert_eq!(output.len(), 1);
    output[0]
}

#[test]
fn test_left_turns_cycle_with_period_four() {
    assert_eq!(final_pose(single_rover((5, 5), 2, 2, 'N', "L")).heading, 'W');
    assert_eq!(final_pose(single_rover((5, 5), 2, 2, 'N', "LL")).heading, 'S');
    assert_eq!(final_pose(single_rover((5, 5), 2, 2, 'N', "LLL")).heading, 'E');
    assert_eq!(final_pose(single_rover((5, 5), 2, 2, 'N', "LLLL")).heading, 'N');
    assert_eq!(final_pose(single_rover((5, 5), 2, 2, 'N', "LLLLL")).heading, 'W');
}

#[test]
fn test_right_turns_cycle_with_period_four() {
    assert_eq!(final_pose(single_rover((5, 5), 2, 2, 'N', "R")).heading, 'E');
    assert_eq!(final_pose(single_rover((5, 5), 2, 2, 'N', "RR")).heading, 'S');
    assert_eq!(final_pose(single_rover((5, 5), 2, 2, 'N', "RRR")).heading, 'W');
    assert_eq!(final_pose(single_rover((5, 5), 2, 2, 'N', "RRRR")).heading, 'N');
    assert_eq!(final_pose(single_rover((5, 5), 2, 2, 'N', "RRRRR")).heading, 'E');
}

#[test]
fn test_four_left_turns_round_trip() {
    for heading in ['N', 'E', 'S', 'W'] {
        let pose = final_pose(single_rover((5, 5), 3, 1, heading, "LLLL"));
        assert_eq!(pose, PositionAndHeading { x: 3, y: 1, heading });
    }
}

#[test]
fn test_rotation_only_commands_keep_position() {
    let pose = final_pose(single_rover((5, 5), 4, 2, 'S', "LRLRLLRRL"));
    assert_eq!((pose.x, pose.y), (4, 2));
}

#[test]
fn test_move_blocked_on_east_edge() {
    let result = simulate_rover_move(single_rover((4, 3), 4, 1, 'E', "M"));
    assert_eq!(result, Err(RoverError::OutOfBounds));
}

#[test]
fn test_move_reaches_east_edge() {
    let pose = final_pose(single_rover((4, 3), 3, 1, 'E', "M"));
    assert_eq!(pose, PositionAndHeading { x: 4, y: 1, heading: 'E' });
}

#[test]
fn test_simulate_empty_batch() {
    let input = InputCommand {
        ur_plateau: (5, 5),
        rovers_to_deploy: vec![],
    };
    assert_eq!(simulate_rover_move(input), Ok(vec![]));
}

#[test]
fn test_simulate_zero_plateau_blocks_every_move() {
    assert_eq!(
        simulate_rover_move(single_rover((0, 0), 0, 0, 'N', "M")),
        Err(RoverError::OutOfBounds)
    );
    let pose = final_pose(single_rover((0, 0), 0, 0, 'N', "LRLR"));
    assert_eq!(pose, PositionAndHeading { x: 0, y: 0, heading: 'N' });
}

#[test]
fn test_parse_rover_to_deploy_pairs_and_reverses() {
    let lines = vec![
        "LM".to_string(),
        "12N".to_string(),
        "RM".to_string(),
        "34E".to_string(),
    ];
    let batch = parse_rover_to_deploy((5, 5), lines).unwrap();
    assert_eq!(batch.ur_plateau, (5, 5));
    assert_eq!(
        batch.rovers_to_deploy,
        vec![
            (
                PositionAndHeading { x: 3, y: 4, heading: 'E' },
                "RM".to_string()
            ),
            (
                PositionAndHeading { x: 1, y: 2, heading: 'N' },
                "LM".to_string()
            ),
        ]
    );
}

#[test]
fn test_parse_rover_to_deploy_filters_start_spec_noise() {
    let lines = vec!["LMLM".to_string(), "#1 2 N!".to_string()];
    let batch = parse_rover_to_deploy((5, 5), lines).unwrap();
    assert_eq!(
        batch.rovers_to_deploy[0].0,
        PositionAndHeading { x: 1, y: 2, heading: 'N' }
    );
}

#[test]
fn test_parse_rover_to_deploy_rejects_empty() {
    assert_eq!(
        parse_rover_to_deploy((5, 5), vec![]),
        Err(RoverError::InvalidNumberOfCommandsForRover)
    );
}

#[test]
fn test_parse_rover_to_deploy_rejects_odd_line_count() {
    let lines = vec!["LM".to_string(), "12N".to_string(), "RM".to_string()];
    assert_eq!(
        parse_rover_to_deploy((5, 5), lines),
        Err(RoverError::InvalidNumberOfCommandsForRover)
    );
}

#[test]
fn test_parse_rover_to_deploy_rejects_bad_start_spec() {
    let lines = vec!["LM".to_string(), "1N".to_string()];
    assert_eq!(
        parse_rover_to_deploy((5, 5), lines),
        Err(RoverError::InvalidStartPosition)
    );
}

#[test]
fn test_parse_rover_commands_reads_pose() {
    assert_eq!(
        parse_rover_commands(vec!['1', '2', 'N']),
        Ok(PositionAndHeading { x: 1, y: 2, heading: 'N' })
    );
}

#[test]
fn test_parse_rover_commands_rejects_non_digit_coordinate() {
    assert_eq!(
        parse_rover_commands(vec!['x', '2', 'N']),
        Err(RoverError::InvalidStartMove)
    );
    assert_eq!(
        parse_rover_commands(vec!['1', 'y', 'N']),
        Err(RoverError::InvalidStartMove)
    );
}

#[test]
fn test_parse_rover_commands_rejects_wrong_length() {
    assert_eq!(
        parse_rover_commands(vec!['1', '2']),
        Err(RoverError::InvalidMove)
    );
    assert_eq!(
        parse_rover_commands(vec!['1', '2', 'N', 'E']),
        Err(RoverError::InvalidMove)
    );
}

#[test]
fn test_is_valid_heading_accepts_canonical_only() {
    assert!(is_valid_heading('N'));
    assert!(is_valid_heading('E'));
    assert!(is_valid_heading('S'));
    assert!(is_valid_heading('W'));
    assert!(!is_valid_heading('n'));
    assert!(!is_valid_heading('X'));
}

#[test]
fn test_is_valid_move_checks_every_character() {
    assert!(is_valid_move("LRMMRL"));
    assert!(is_valid_move(""));
    assert!(!is_valid_move("LRX"));
    assert!(!is_valid_move("lrm"));
}

#[test]
fn test_get_next_heading_rotation_table() {
    assert_eq!(get_next_heading(('N', 'L')), Some('W'));
    assert_eq!(get_next_heading(('N', 'R')), Some('E'));
    assert_eq!(get_next_heading(('E', 'L')), Some('N'));
    assert_eq!(get_next_heading(('E', 'R')), Some('S'));
    assert_eq!(get_next_heading(('S', 'L')), Some('E'));
    assert_eq!(get_next_heading(('S', 'R')), Some('W'));
    assert_eq!(get_next_heading(('W', 'L')), Some('S'));
    assert_eq!(get_next_heading(('W', 'R')), Some('N'));
    assert_eq!(get_next_heading(('S', 'M')), Some('S'));
    assert_eq!(get_next_heading(('X', 'M')), Some('X'));
    assert_eq!(get_next_heading(('X', 'L')), None);
    assert_eq!(get_next_heading(('N', 'Q')), None);
}

#[test]
fn test_will_not_collide_compares_cells_not_headings() {
    let settled = vec![
        PositionAndHeading { x: 1, y: 1, heading: 'N' },
        PositionAndHeading { x: 2, y: 3, heading: 'E' },
    ];
    let same_cell = PositionAndHeading { x: 2, y: 3, heading: 'W' };
    let free_cell = PositionAndHeading { x: 3, y: 2, heading: 'E' };
    assert!(!will_not_collide(&same_cell, &settled));
    assert!(will_not_collide(&free_cell, &settled));
    assert!(will_not_collide(&same_cell, &[]));
}

#[test]
fn test_parse_input_commands_normalizes_heading_and_commands() {
    let input = InputCommand {
        ur_plateau: (5, 5),
        rovers_to_deploy: vec![(
            PositionAndHeading { x: 1, y: 2, heading: 'n' },
            "l m-r7m".to_string(),
        )],
    };
    let fixed = parse_input_commands(input).unwrap();
    assert_eq!(fixed.ur_plateau, (5, 5));
    assert_eq!(
        fixed.rovers_to_deploy,
        vec![(
            PositionAndHeading { x: 1, y: 2, heading: 'N' },
            "LMRM".to_string()
        )]
    );
}

#[test]
fn test_parse_input_commands_checks_bounds_before_heading() {
    let input = InputCommand {
        ur_plateau: (2, 2),
        rovers_to_deploy: vec![(
            PositionAndHeading { x: 3, y: 1, heading: 'Q' },
            "M".to_string(),
        )],
    };
    assert_eq!(
        parse_input_commands(input),
        Err(RoverError::StartOutOfBounds)
    );
}

#[test]
fn test_parse_input_commands_rejects_first_bad_entry() {
    let input = InputCommand {
        ur_plateau: (5, 5),
        rovers_to_deploy: vec![
            (
                PositionAndHeading { x: 1, y: 1, heading: 'Q' },
                "M".to_string(),
            ),
            (
                PositionAndHeading { x: 2, y: 2, heading: 'N' },
                "LAB".to_string(),
            ),
        ],
    };
    assert_eq!(parse_input_commands(input), Err(RoverError::InvalidHeading));
}

#[test]
fn test_plateau_digits_beyond_second_are_ignored() {
    assert_eq!(parse_user_plateau("3 4 5 6".to_string()), Ok((3, 4)));
}

#[test]
fn test_collision_order_first_rover_claims_cell() {
    let input = InputCommand {
        ur_plateau: (5, 5),
        rovers_to_deploy: vec![
            (
                PositionAndHeading { x: 0, y: 0, heading: 'N' },
                "M".to_string(),
            ),
            (
                PositionAndHeading { x: 0, y: 2, heading: 'S' },
                "M".to_string(),
            ),
        ],
    };
    assert_eq!(simulate_rover_move(input), Err(RoverError::Collision));
}
