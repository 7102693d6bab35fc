use transrustica::checkpoint::Checkpoint;
use transrustica::schedule::{dispatch_order, plan_dispatch, scene_indices, ScenePool};
use transrustica::segment::scenes_from_boundaries;
use transrustica::segment::Scene;

fn sc(index: usize, start_ms: u64, end_ms: u64) -> Scene {
    Scene { index, start_ms, end_ms }
}

#[test]
fn shortest_scenes_first() {
    let scenes = vec![sc(0, 0, 5000), sc(1, 5000, 6000), sc(2, 6000, 9000), sc(3, 9000, 10000)];
    let order: Vec<usize> = dispatch_order(&scenes).iter().map(|s| s.index).collect();
    assert_eq!(order, vec![3, 1, 2, 0]);
    assert!(dispatch_order(&vec![]).is_empty());
}

#[test]
fn no_two_workers_hold_one_scene() {
    let mut pool = ScenePool::new(vec![3, 1, 2, 0], 2).unwrap();
    assert_eq!(pool.claim(0), Some(3));
    assert_eq!(pool.claim(1), Some(1));
    assert_eq!(pool.claim(0), None);
    assert_eq!(pool.claim(5), None);
    assert_eq!(pool.release(0), Some(3));
    assert_eq!(pool.release(0), None);
    assert_eq!(pool.claim(0), Some(2));
    assert_eq!(pool.remaining(), 1);
    assert_eq!(pool.release(1), Some(1));
    assert_eq!(pool.claim(1), Some(0));
    assert_eq!(pool.remaining(), 0);
    assert_eq!(pool.release(0), Some(2));
    assert_eq!(pool.claim(0), None);
}

#[test]
fn pool_refuses_repeated_scene() {
    assert!(ScenePool::new(vec![1, 2, 1], 2).is_none());
    assert!(ScenePool::new(vec![], 2).is_some());
}

#[test]
fn every_dispatch_ordering_partitions_the_scenes() {
    let queue = vec![4, 0, 3, 1, 2];
    for workers in 1..4 {
        let mut pool = ScenePool::new(queue.clone(), workers).unwrap();
        let mut seen = Vec::new();
        let mut turn = 0;
        while seen.len() < queue.len() {
            let w = turn % workers;
            pool.release(w);
            if let Some(s) = pool.claim(w) {
                assert!(!seen.contains(&s));
                seen.push(s);
            }
            turn += 1;
        }
        seen.sort();
        assert_eq!(seen, vec![0, 1, 2, 3, 4]);
    }
}

#[test]
fn run_plan_skips_completed_and_orders_shortest_first() {
    let scenes = scenes_from_boundaries(&vec![0, 5000, 6000, 9000, 10000]);
    assert_eq!(scene_indices(&scenes), vec![0, 1, 2, 3]);
    let mut cp = Checkpoint::new();
    cp.mark_done(3);
    let mut pool = plan_dispatch(&scenes, &cp, 2);
    assert_eq!(pool.remaining(), 3);
    assert_eq!(pool.claim(0), Some(1));
    assert_eq!(pool.claim(1), Some(2));
    pool.release(0);
    assert_eq!(pool.claim(0), Some(0));
    assert_eq!(pool.remaining(), 0);
}
