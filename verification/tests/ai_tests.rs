use openrailwaymap_exporter::ai::{RailMovableAction, TrainAgentRL, TrainAgentState};

#[test]
fn test_take_action() {
    let mut agent = TrainAgentRL {
        state: TrainAgentState { delta_distance_mm: 1000, current_speed_mm_s: 0, max_speed_percentage: 0 },
        max_speed_mm_s: (1000.0 * 160.0 / 3.6) as i32,
    };

    agent.take_action(&RailMovableAction::AccelerateForward { acceleration: 1000 });
    assert_eq!(agent.state.current_speed_mm_s, 1000);
    assert_eq!(agent.state.delta_distance_mm, 1000);

    agent.take_action(&RailMovableAction::AccelerateForward { acceleration: 500 });
    assert_eq!(agent.state.current_speed_mm_s, 1500);
    assert_eq!(agent.state.delta_distance_mm, 1500);

    agent.take_action(&RailMovableAction::AccelerateBackward { acceleration: 500 });
    assert_eq!(agent.state.current_speed_mm_s, 1000);
    assert_eq!(agent.state.delta_distance_mm, 1000);

    agent.take_action(&RailMovableAction::Stop);
    assert_eq!(agent.state.current_speed_mm_s, 0);
}

#[test]
fn test_train_agent_state() {
    let state = TrainAgentState { delta_distance_mm: 1000, current_speed_mm_s: 0, max_speed_percentage: 0 };

    assert_eq!(state.delta_distance_mm, 1000);
    assert_eq!(state.current_speed_mm_s, 0);
    assert_eq!(state.max_speed_percentage, 0);
}

#[test]
fn take_action_measures_the_share_of_the_maximum_speed() {
    let mut agent = TrainAgentRL {
        state: TrainAgentState { delta_distance_mm: 0, current_speed_mm_s: 0, max_speed_percentage: 0 },
        max_speed_mm_s: 44444,
    };
    agent.take_action(&RailMovableAction::AccelerateForward { acceleration: 1000 });
    assert_eq!(agent.state.max_speed_percentage, 2);
    agent.take_action(&RailMovableAction::AccelerateBackward { acceleration: 3000 });
    assert_eq!(agent.state.current_speed_mm_s, -2000);
    assert_eq!(agent.state.delta_distance_mm, -2000);
    assert_eq!(agent.state.max_speed_percentage, 4);
    agent.take_action(&RailMovableAction::Stop);
    assert_eq!(agent.state.max_speed_percentage, 0);
    assert_eq!(agent.state.delta_distance_mm, -2000);
}

#[test]
fn take_action_with_no_maximum_speed() {
    let mut agent = TrainAgentRL::default();
    agent.take_action(&RailMovableAction::AccelerateForward { acceleration: 20 });
    assert_eq!(agent.state.max_speed_percentage, i32::MAX);
    agent.take_action(&RailMovableAction::Stop);
    assert_eq!(agent.state.max_speed_percentage, 0);
}

#[test]
fn forward_then_backward_restores_the_speed() {
    let mut agent = TrainAgentRL {
        state: TrainAgentState { delta_distance_mm: 5, current_speed_mm_s: 700, max_speed_percentage: 1 },
        max_speed_mm_s: 44000,
    };
    agent.take_action(&RailMovableAction::AccelerateForward { acceleration: 340 });
    agent.take_action(&RailMovableAction::AccelerateBackward { acceleration: 340 });
    assert_eq!(agent.state.current_speed_mm_s, 700);
    assert_eq!(agent.state.delta_distance_mm, 700);
    assert_eq!(agent.state.max_speed_percentage, 1);
}

#[test]
fn actions_are_stop_then_forward_and_backward_steps() {
    let state = TrainAgentState::default();
    let actions = state.actions();
    assert_eq!(actions.len(), 101);
    assert_eq!(actions[0], RailMovableAction::Stop);
    assert_eq!(actions[1], RailMovableAction::AccelerateForward { acceleration: 20 });
    assert_eq!(actions[2], RailMovableAction::AccelerateBackward { acceleration: 20 });
    assert_eq!(actions[99], RailMovableAction::AccelerateForward { acceleration: 1000 });
    assert_eq!(actions[100], RailMovableAction::AccelerateBackward { acceleration: 1000 });
    assert_eq!(state.action_at(103), actions[2]);
}

#[test]
fn random_action_is_one_of_the_actions() {
    let state = TrainAgentState::default();
    let actions = state.actions();
    for _ in 0..50 {
        let action = state.random_action();
        assert!(actions.contains(&action));
    }
}

#[test]
fn pick_random_action_takes_the_action() {
    let mut agent = TrainAgentRL {
        state: TrainAgentState { delta_distance_mm: 0, current_speed_mm_s: 5000, max_speed_percentage: 11 },
        max_speed_mm_s: 44000,
    };
    let before = agent.state;
    let action = agent.pick_random_action();
    let mut expected = TrainAgentRL { state: before, max_speed_mm_s: 44000 };
    expected.take_action(&action);
    assert_eq!(agent.state, expected.state);
}

#[test]
fn observe_state_keeps_the_speed_and_sets_the_distance() {
    let mut agent = TrainAgentRL {
        state: TrainAgentState { delta_distance_mm: 1, current_speed_mm_s: 2, max_speed_percentage: 3 },
        max_speed_mm_s: 44000,
    };
    agent.observe_state(Some(1000));
    assert_eq!(agent.state, TrainAgentState { delta_distance_mm: 1000, current_speed_mm_s: 2, max_speed_percentage: 3 });
    agent.observe_state(None);
    assert_eq!(agent.state, TrainAgentState { delta_distance_mm: 1000, current_speed_mm_s: 2, max_speed_percentage: 3 });
}

#[test]
fn default_action_is_stop() {
    assert_eq!(RailMovableAction::default(), RailMovableAction::Stop);
}
