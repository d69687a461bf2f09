use cortex::json::Json;
use cortex::model::{TriggerSpec, Workflow, WorkflowSpec};
use cortex::scheduler::Scheduler;

fn wf(id: u128, every: Option<u64>) -> Workflow {
    Workflow {
        id,
        spec: WorkflowSpec {
            name: format!("wf{id}"),
            description: None,
            params: Json::Null,
            tasks: vec![],
            triggers: TriggerSpec { every_secs: every, on_ingest: None },
            max_parallel_tasks: 1,
        },
        created_at: 0,
        updated_at: 0,
    }
}

#[test]
fn first_sighting_waits_a_full_interval() {
    let mut s = Scheduler::new();
    let ws = vec![wf(1, Some(10))];
    assert!(s.tick(&ws, 0).is_empty());
    assert_eq!(s.due_at(1), Some(10_000));
    assert!(s.tick(&ws, 9_999).is_empty());
    assert_eq!(s.tick(&ws, 10_000), vec![0]);
    assert_eq!(s.due_at(1), Some(20_000));
}

#[test]
fn unscheduled_and_removed_workflows_are_forgotten() {
    let mut s = Scheduler::new();
    assert!(s.tick(&[wf(1, Some(5)), wf(2, Some(0)), wf(3, None)], 100).is_empty());
    assert_eq!(s.due_at(1), Some(5_100));
    assert_eq!(s.due_at(2), None);
    assert_eq!(s.due_at(3), None);
    assert!(s.tick(&[wf(3, None)], 200).is_empty());
    assert_eq!(s.due_at(1), None);
    // Coming back counts as a first sighting again.
    assert!(s.tick(&[wf(1, Some(5))], 10_000).is_empty());
    assert_eq!(s.due_at(1), Some(15_000));
}

#[test]
fn several_due_workflows_fire_in_listing_order() {
    let mut s = Scheduler::new();
    let ws = vec![wf(1, Some(1)), wf(2, Some(2)), wf(3, Some(1))];
    s.tick(&ws, 0);
    assert_eq!(s.tick(&ws, 1_000), vec![0, 2]);
    assert_eq!(s.tick(&ws, 2_000), vec![0, 1, 2]);
}

#[test]
fn late_ticks_fire_once_and_reschedule_from_the_tick() {
    let mut s = Scheduler::new();
    let ws = vec![wf(7, Some(10))];
    let times = [1_000u128, 5_000, 11_000, 13_000, 20_999, 23_500, 24_000, 40_000];
    let mut fired_at = Vec::new();
    for t in times {
        if !s.tick(&ws, t).is_empty() {
            fired_at.push(t);
        }
    }
    // Due at 11_000 (first tick + 10 s), then 21_000, then 33_500.
    assert_eq!(fired_at, vec![11_000, 23_500, 40_000]);
    assert_eq!(s.due_at(7), Some(50_000));
}
