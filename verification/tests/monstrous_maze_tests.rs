//! The maze engine's scenarios: the paths the solver must choose and the
//! verdicts the replay must give.

use challenge_relay::messages::{MonstrousMazeInput, MonstrousMazeOutput};
use challenge_relay::monstrous_maze::MonstrousMaze;

#[test]
fn it_works() {
assert_eq!(2 + 2, 4);
}

#[test]
fn simple_maze_without_monster_and_low_complexity_should_find_path() {
    let monstrous_maze_input: MonstrousMazeInput = MonstrousMazeInput {
        endurance: 1,
        grid: "┌─┐\n\
               |I|\n\
               | |\n\
               | |\n\
               |X|\n\
               └─┘"
        .to_string(),
    };
    let monstrous_maze_challenge = MonstrousMaze::new(monstrous_maze_input);
    let expected_path = "vvv".to_string();
    let output = monstrous_maze_challenge.solve();
    let verify_output = monstrous_maze_challenge.verify(&output);
    let found_path = output.path;

    assert_eq!(found_path, expected_path);
    assert_eq!(verify_output, true);
}

#[test]
fn simple_maze_without_possible_path_should_find_no_path() {
    let monstrous_maze_input: MonstrousMazeInput = MonstrousMazeInput {
        endurance: 1,
        grid: "┌─┐\n\
               |I|\n\
               | |\n\
               |─|\n\
               | |\n\
               |X|\n\
               └─┘"
        .to_string(),
    };
    let monstrous_maze_challenge = MonstrousMaze::new(monstrous_maze_input);
    let expected_path = "".to_string();
    let output = monstrous_maze_challenge.solve();
    let verify_output = monstrous_maze_challenge.verify(&output);
    let found_path = output.path;

    assert_eq!(found_path, expected_path);
    assert_eq!(verify_output, false);
}

#[test]
fn simple_maze_with_monster_should_find_path() {
    let monstrous_maze_input: MonstrousMazeInput = MonstrousMazeInput {
        endurance: 2,
        grid: "┌─┐\n\
               |I|\n\
               | |\n\
               |M|\n\
               | |\n\
               |X|\n\
               └─┘"
        .to_string(),
    };
    let monstrous_maze_challenge = MonstrousMaze::new(monstrous_maze_input);
    let expected_path = "vvvv".to_string();
    let output = monstrous_maze_challenge.solve();
    let verify_output = monstrous_maze_challenge.verify(&output);
    let found_path = output.path;

    assert_eq!(found_path, expected_path);
    assert_eq!(verify_output, true);
}

#[test]
fn simple_maze_with_monsters_should_find_no_paths_since_no_more_endurance() {
    let monstrous_maze_input: MonstrousMazeInput = MonstrousMazeInput {
        endurance: 2,
        grid: "┌─┐\n\
               |I|\n\
               |M|\n\
               |M|\n\
               |X|\n\
               └─┘"
        .to_string(),
    };
    let monstrous_maze_challenge = MonstrousMaze::new(monstrous_maze_input);
    let expected_path = "".to_string();
    let output = monstrous_maze_challenge.solve();
    let verify_output = monstrous_maze_challenge.verify(&output);
    let found_path = output.path;

    assert_eq!(found_path, expected_path);
    assert_eq!(verify_output, false);
}

#[test]
fn simple_maze_with_monsters_should_find_paths_by_avoiding_monsters() {
    let monstrous_maze_input: MonstrousMazeInput = MonstrousMazeInput {
        endurance: 2,
        grid: "┌───┐\n\
               |I  |\n\
               |M  |\n\
               |M  |\n\
               |X  |\n\
               └───┘"
            .to_string(),
    };
    let monstrous_maze_challenge = MonstrousMaze::new(monstrous_maze_input);
    let expected_path = ">vv<v".to_string();
    let output = monstrous_maze_challenge.solve();
    let verify_output = monstrous_maze_challenge.verify(&output);
    let found_path = output.path;

    assert_eq!(found_path, expected_path);
    assert_eq!(verify_output, true);
}

#[test]
fn really_hard_maze_with_monsters_should_find_path() {
    let monstrous_maze_input: MonstrousMazeInput = MonstrousMazeInput {
        grid: "│I────┬─────────┬─┬─────┬───┬───────┬───────────┬─────────────┬───┬─┬─┬─────┬───┬─┬─┬───┬─────┬───────────┬─────┬─┬───┬───┬─────┬───────────────────┬───┬─┬─┬─┬─┬─┬───┬───┬─┬─┬───┬───────────┬─┬───┬───┐\n\
               │     │         │ │     │   │       │           │             │   │ │ │     │   │ │ │   │     │           │     │ │   │   │     │                   │   │ │ │ │ │ │   │   │ │ │   │           │ │   │   │\n\
               ├── ──┴─┬── ────┘ │ ────┼─┐ ├── ──┬─┴─┬─┐ ──┬── │ │ ──┬──── ──┘ ┌─┘ │ └── ──┼── │ │ ├── ├── ──┘ ┌─┐ ──┬── │ ┌── │ │ ──┘ │ │ ────┼─────┐ ┌──────── ──┴── │ │ │ │ │ │ ┌─┴── │ │ ├── │ ┌──── ┌── │ │ ──┘ ──┤\n\
               │       │               │ │ │     │   │ │   │     │   │         │           │       │   │       │ │   │   │ │   │       │       │     │ │                   │     │ │         │     │     │     │       │\n\
               │ ┌─┬───┴─┬── │ ┌── ┌── │ │ └─┐ ──┼── │ ├── ├─┐ │ │ ┌─┴─┬─┬─┐ ──┴─────┬─┬─┐ └── ┌───┘ ┌─┴───┬─┐ │ ├─┐ └─┬─┼─┘ │ │ ┌─┐ ┌─┘ ────┬─┘ ┌───┴─┘ ┌──── ──┐ ────┐ ┌─┤ ┌─┬─┘ │ │ ┌─────┴── ──┴─┬── │ ──┬─┼── ────┤\n\
               │ │ │     │   │ │   │   │     │   │   │ │   │ │ │ │ │   │ │ │         │ │ │     │     │     │ │   │ │   │ │   │   │ │ │       │   │       │       │     │ │ │ │ │     │ │             │   │   │ │       │\n\
               │ │ │ ──┐ ├───┤ └─┬─┤ │ ├── │ │ │ │ ──┘ ├── │M└─┘ ├─┴── │ │ │ │ │ ──┐ │ │ │ ┌── └──── ├───┐ │ │ │ │ └───┘ ├── ├─┬─┘ │ ├─┬── ──┤ │ │ ──┐ ──┤ ────┐ │ │ │ │ │ │ │ │ ────┼─┼──── │ ┌─┐ │ ├───┘ │ │ │ │ ┌── │\n\
               │   │   │ │   │   │ │ │ │   │   │ │     │   │     │           │ │   │ │     │         │   │     │ │       │   │ │     │ │     │ │     │   │     │ │ │ │ │ │           │ │     │ │ │ │ │     │   │ │ │   │\n\
               │ ──┘ │ │ │ ──┴─┐ │ └─┘ │ ┌─┘ ┌─┘ │ ──┐ │ │ ├───┬─┴─┬── │ │ │ ├─┘ ┌─┘ │ │ │ └─┬── ┌───┘ ┌─┴─┐ │ ├─┤ ┌── ┌─┴─┐ │ │ ┌─┐ │ ├─┐ ┌─┴─┴─────┴── ├─────┤ ├─┤ │ └─┼─┬── ┌──── │ │ ────┤ │ └─┴─┴─┬───┴───┴─┤ └───┤\n\
               │     │ │       │ │       │   │   │   │ │ │ │   │   │   │ │ │ │   │     │ │   │   │     │   │ │ │ │ │   │   │ │   │ │ │ │ │ │             │     │ │ │ │   │ │   │       │     │         │         │     │\n\
               ├── ┌─┴─┴─┐ ──┐ └─┴─┐ │ ──┼─┬─┴── │ ──┼─┴─┼─┘ ──┤ ┌─┤ ┌─┼─┴─┘ └───┤ ──┐ └─┼───┘ │ │ ┌───┤ ┌─┘ │ │ └─┴── │ ┌─┼─┤ ──┘ │ │ │ └─┼───┐ ┌─┬── ──┘ │ │ ├─┤ └─┼───┘ └─┐ └─┬─┐ ┌─┘ │ ──┤ ──┬─┐ ┌─┘ ──────┬─┼─┐ │ │\n\
               │   │     │   │     │ │   │ │         │   │     │ │ │ │ │         │   │   │     │   │   │ │   │           │ │ │     │       │   │ │ │       │ │ │ │   │       │   │ │ │   │   │   │ │ │         │ │ │ │ │\n\
               │ │ └── ┌─┴───┴── ──┘ │ ──┤ │ ──┬─┐ ──┘ ──┴── │ │ │ └─┤ └── ──┐ ┌─┼───┤ ┌─┴──── │ │ │ │ │ ├─┐ ├── ──┬───┬─┘ │ │ ┌─┐ ├── ──┐ │ ──┘ │ └───┐ │ └─┤ │ ├── │ ──┐ ──┴─┬─┘ │ │ ┌─┤ ┌─┘ ──┘ │ │ │ ┌── │ │ │ └─┘ │\n\
               │ │     │             │   │     │ │           │       │       │ │ │   │ │       │ │ │ │   │ │ │     │   │   │   │ │ │     │             │ │   │   │   │   │     │     │ │ │ │       │   │ │   │ │       │\n\
               ├─┤ ────┤ ┌──── │ ──┐ │ ──┼── ┌─┘ └───┐ ┌─┐ │ ├──── │ ├─┐ ┌── ├─┘ │ │ │ └───┐ ┌─┴─┴─┘ │ ──┘ └─┤ ──┐ └─┐ │ │ ├───┘ │ ├─┬───┴─┬── ──┐ │ │ ├─┤ ──┴───┘ │ └─┬─┘ ──┐ ├─┐ ┌─┼─┘ │ ├───┐ ┌─┘ ┌─┴─┤ ┌─┼─┴───┬── │\n\
               │ │     │ │     │   │ │   │   │       │ │ │ │ │     │ │ │ │   │     │ │     │ │       │       │   │   │   │ │       │ │     │     │ │ │ │ │         │   │     │ │ │ │ │   │ │   │ │   │   │ │ │     │   │\n\
               │ └─┐ ┌─┤ ├──── │ │ │ └─┐ ├─┐ │ ┌───┬─┘ │ └─┼─┴──── │ │ │ ├── ├───┐ └─┘ │ ──┼─┘ ┌─┬── ├───┐ ┌─┘ ┌─┴── └── └─┴─┐ ──┐ │ ├── │ └── │ ├─┴─┘ │ ├─┬───┬───┼───┤ ┌── └─┘ │ │ └─┐ │ │ │ ├─┤ ┌─┼─┐ │ │ │ ──┐ │ │ │\n\
               │   │ │ │ │     │ │ │   │ │ │   │   │   │   │       │ │   │   │   │     │   │   │ │   │   │ │   │             │   │   │   │     │ │       │ │   │   │   │ │         │   │ │   │ │ │ │ │ │   │ │   │   │ │\n\
               ├─┐ │ │ └─┤ ┌───┤ └─┼─┬─┼─┤ │ │ │ │ └─┬─┘ │ │M┌── ──┤ │ ──┴─┬─┴── │ │ ┌─┼───┴───┘ │ ──┘ ──┤ ├─┬─┴───┬─┐ ──┬─┬─┤ ┌─┼── │ ┌─┴───┬─┘ │ ┌─┬── │ │ ──┘ │ │ │ └─┴── ──┬─┐ │ ──┤ │ │ ├─┘ └─┘ │ ├───┘ │ │ │ │ └─┤\n\
               │ │ │     │ │   │   │ │ │ │   │   │   │   │   │     │       │     │ │ │ │         │       │ │ │     │ │   │ │ │ │ │   │ │     │   │ │ │           │ │ │         │ │     │   │ │         │       │ │ │   │\n\
               │ │ │ ┌── │ └─┐ │ ──┘ │ │ ├── ├───┴─┬─┼── ├─┐ ├───┬─┴─┐ │ ┌─┤ │ ──┼─┤ │ │ │ ┌─────┼───┬───┤ │ └─┬── │ ├── │ │ └─┘ └───┘ ├───┐ └─┬─┴─┘ └── ────┐ │ │ └─┴── ──┐ ┌─┘ │ ──┬─┘ ──┼─┤ ──┐ │ ──┼── ──┬─┘ ├─┴───┤\n\
               │   │ │   │   │       │   │   │     │ │   │ │ │   │   │ │ │ │ │   │ │   │ │ │     │   │   │ │   │     │   │             │   │   │             │ │ │         │ │   │   │     │ │   │ │   │     │   │     │\n\
               ├─┐ └─┼── └───┼─┬── │ │ ──┘ ┌─┘ ┌─┬─┤ └───┤ └─┴─┐ └─┐ │ └─┘ └─┤ ┌─┘ │ ──┤ └─┴──── │ ──┤ │ │ │ │ └─┬── ├── ├─┬─┬─┐ ┌─┐ ┌─┤ ──┤ ┌─┘ │ │ ────────┤ └─┴─┐ ──┐ ──┴─┤ ──┼── └── ──┘ ├───┘ │ ──┘ ────┴─┬─┤ │ │ │\n\
               │ │   │       │ │   │ │     │   │ │ │     │     │   │ │       │ │       │             │ │     │   │   │   │ │ │ │ │ │ │ │   │ │   │ │         │     │   │     │   │           │     │           │ │ │ │ │\n\
               │ │ │ ├── │ ┌─┘ ├───┘ │ ────┘ │ │ │ │ ┌─┐ │ │ │ │ ──┤ └─┐ ┌── │ │ │ ┌── ├─┬── │ ┌─┬───┘ ├──── ├── ├── │ ┌─┤ │ │ │ │ ├─┘ └── │ └───┼─┘ │ ────┬─┼─┬───┴── ├── ┌─┤ │ │ │ │ │ ┌─┐ └──── └───┐ │ ──┬─┘ │ │ └─┤\n\
               │   │ │   │ │   │     │       │ │   │ │ │ │ │ │     │   │ │     │ │ │   │ │   │ │ │     │     │   │     │ │         │       │     │   │     │ │ │       │   │ │ │ │ │ │ │ │ │           │ │   │     │   │\n\
               │ │ └─┴───┘ │ │ └─┐ ──┤ ┌─┐ ──┴─┼── ├─┘ │ │ └─┼──── │ │ └─┴─┬─┬─┴─┴─┘ ──┤ │ ┌─┼─┘ └─┐ ──┤ │ │ │ │ ├──── │ │ ──┐ ──┬─┘ ┌── ──┘ │ ┌─┘ ──┴─┐ ┌─┘ │ │ ──┬─┐ ├───┘ └─┘ │ ├─┤ └─┘ │ ┌── ──┐ ┌─┴─┘ ──┼── ──┤ ──┤\n\
               │ │           │   │   │ │ │     │   │   │ │   │       │     │ │         │   │ │     │   │ │ │ │ │ │           │   │   │       │ │       │ │     │   │ │ │           │ │     │ │     │ │       │     │   │\n\
               ├─┘ ──────┬───┤ ──┴───┤ │ │ │ ┌─┘ ──┴── │ │ ──┴─────┐ ├─┬── │ │ ──┬── │ ├── │ └───┐ │ ──┤ ├─┤ │ │ └── │ ──┐ ┌─┴── └─┐ │ ┌───┐ └─┼── ────┴─┴───┐ └── │ ├─┘ ──┬───┐ │ │ │ ──┐ │ │ │ │ │ ├─┐ ──┬─┴─┬─┐ │ ──┤\n\
               │         │   │       │ │   │ │         │           │ │ │   │ │   │   │ │   │     │     │ │ │ │ │     │   │ │       │ │ │   │   │             │       │     │   │ │   │   │ │ │ │ │ │ │ │   │   │ │ │   │\n\
               │ │ ┌─┐ ──┘ ┌─┘ │ ┌─┬─┴─┼───┘ └── │ ┌───┼──── ──┬── ├─┤ └───┘ ├── ├─┐ │ │ ──┼── │ └──── │ │ ├─┴─┼───┐ │ ┌─┼─┴───┬─┐ ├─┴─┘ ┌─┼─┐ │ │ ──┬── ┌─┐ ├── │ ──┤ ──┐ ├─┐ │ ├───┤ ┌─┴─┴─┴─┤ ├─┴─┤ │ ──┘ │ │ │ └─┬─┤\n\
               │ │ │ │     │   │ │ │   │         │ │   │       │   │ │       │   │ │ │     │   │       │   │   │   │ │ │ │     │ │ │     │ │ │   │   │   │ │ │   │   │   │ │ │   │   │ │       │ │   │ │     │ │     │ │\n\
               ├─┼─┤ ├─┬── ├───┘ │ └─┐ └── ──┐ ┌─┘ │ ──┘ ┌─────┘ ┌─┘ │ │ ────┤ ──┘ ├─┼── ┌─┴─┬─┼─┐ ──┐ └─┬─┘ ┌─┤ ──┴─┤ │ └─┬─┐ │ │ ├───┐ │ │ └─┐ └─┐ ├───┘ │ ├───┼───┘ │ ├─┘ │ │ │ ──┴─┤ ┌───┐ │ │ ──┤ │ │ ──┤ └─┐ ──┘ │\n\
               │ │ │ │ │   │         │       │ │         │       │   │ │     │     │ │   │   │ │ │   │   │   │ │     │     │ │     │   │ │     │   │ │       │   │     │ │     │ │     │ │   │       │ │ │   │   │     │\n\
               │ │ │ │ │ ┌─┴───┐ │ ──┤ ┌─────┴─┘ ──┬───┐ ├── ┌── │ │ ├─┘ ┌───┘ │ ┌─┘ ├── │ │ │ │ └── ├─┐ ├── │ │ ────┘ ┌───┘ └─────┴── │ └── ──┤ ┌─┘ ├───┐ ──┘ │ ├── │ ├─┼── ──┼─┼─┐ │ ├─┘ ──┴─────┐ │ │ │ ──┤ │ │ │ │ │\n\
               │     │ │ │     │ │   │ │           │   │ │   │   │ │ │   │     │ │   │   │ │         │ │ │             │                       │ │   │   │     │ │   │ │ │     │ │ │ │ │           │ │   │   │ │   │ │ │\n\
               │ │ │ │ │ │ ──┐ ├─┘ ──┼─┤ │ ┌── ┌── │ │ ├─┴───┘ ──┼─┘ ├── └── ┌─┘ │ │ │ │ │ │ │ ──┐ ──┤ │ └─────┐ │ │ │ └── ────┬───┐ ┌── ────┬─┴─┤ ──┘ ──┤ │ ──┼─┘ │ └─┘ ├───┬─┘ │ │ ├─┼── ┌──── ┌─┴─┘ │ ├── └─┴─┐ ├─┤ │\n\
               │ │ │     │   │ │     │ │ │ │   │   │ │ │         │   │       │   │ │   │   │ │   │   │         │ │ │ │         │   │ │       │   │       │ │   │   │     │   │   │   │ │   │     │     │ │       │ │ │ │\n\
               ├─┴─┘ ────┼───┘ └──── │ │ │ │ ┌─┘ │ │ └─┴─────┐ │ └── │ ┌── │ ├── └─┤ ──┤ ──┴─┴─┐ ├── │ │ ──────┼─┘ └─┼── ┌──── └─┐ │ │ ──┬── └── ├── ┌───┘ │ │ │ ┌─┘ ────┘ │ │ │ │ ──┘ │ │ ├── │ │ │ ──┼─┴── ────┤ │ │ │\n\
               │         │             │ │ │ │   │           │ │     │ │   │ │     │   │       │ │   │ │       │     │   │       │   │   │       │   │     │ │ │ │         │   │ │       │ │   │   │   │         │ │ M X\n\
               └─────────┴─────────────┴─┴─┴─┴───┴───────────┴─┴─────┴─┴───┴─┴─────┴───┴───────┴─┴───┴─┴───────┴─────┴───┴───────┴───┴───┴───────┴───┴─────┴─┴─┴─┴─────────┴───┴─┴───────┴─┴───┴───┴───┴─────────┴─┴────".to_string(),
        endurance: 10,
    };
    let monstrous_maze_challenge = MonstrousMaze::new(monstrous_maze_input);
    let expected_path = "v>>vv<<vvvvvv>>>>^^^^>>>>vvvv>>>>>>vv>>vv>>>>^^^^>>>>^^>>^^>>vv>>^^>>vvvvvv>>vv>>>>>>>>>>^^>>vv>>>>>>vvvvvv>>^^>>^^^^>>^^>>^^^^^^>>>>>>>>vvvv>>vvvvvvvv<<vvvvvv>>vv<<vv>>vvvv>>vvvvvv>>^^^^>>vv>>>>>>>>^^<<^^>>>>^^<<^^^^>>^^^^>>vv>>>>^^>>vv>>vvvvvv>>>>^^>>>>>>^^>>>>>>^^^^>>>>>>^^^^>>^^>>vv>>>>^^^^>>>>>>>>vvvv>>vv>>>>>>>>^^>>vvvv>>>>>>^^>>>>^^>>>>>>vvvv>>vv>>>>>>>>vv>>>>>>^^^^^^>>vvvv>>>>>>vvvv<<vvvv>>>>^^>>vvvv>>vv>>^^>>>>vvvvvv>".to_string();
    let output = monstrous_maze_challenge.solve();
    let verify_output = monstrous_maze_challenge.verify(&output);
    let found_path = output.path;

    assert_eq!(found_path, expected_path);
    assert_eq!(verify_output, true);
}

#[test]
fn incorrect_output_should_return_false_when_verify() {
    let monstrous_maze_input: MonstrousMazeInput = MonstrousMazeInput {
        endurance: 2,
        grid: "┌─┐\n\
               |I|\n\
               |M|\n\
               | |\n\
               |X|\n\
               └─┘"
        .to_string(),
    };
    let monstrous_maze_challenge = MonstrousMaze::new(monstrous_maze_input);
    let output: MonstrousMazeOutput = MonstrousMazeOutput {
        path: "v>vv<".to_string(),
    };
    let verify_output = monstrous_maze_challenge.verify(&output);
    assert_eq!(verify_output, false);
}

#[test]
fn verify_accepts_any_valid_replay_not_only_the_solver_path() {
    let monstrous_maze_input: MonstrousMazeInput = MonstrousMazeInput {
        endurance: 3,
        grid: "┌─┐\n\
               |I|\n\
               | |\n\
               | |\n\
               |X|\n\
               └─┘"
        .to_string(),
    };
    let monstrous_maze_challenge = MonstrousMaze::new(monstrous_maze_input);
    let hand_written = MonstrousMazeOutput {
        path: "vvv".to_string(),
    };
    assert!(monstrous_maze_challenge.verify(&hand_written));
    let stops_short = MonstrousMazeOutput {
        path: "vv".to_string(),
    };
    assert!(!monstrous_maze_challenge.verify(&stops_short));
    let through_a_wall = MonstrousMazeOutput {
        path: "v>vv".to_string(),
    };
    assert!(!monstrous_maze_challenge.verify(&through_a_wall));
}
