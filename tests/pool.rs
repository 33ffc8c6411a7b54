use mr::pool::{next_action, plan_tasks, Action, Stolen, Work};

#[test]
fn plan_files_then_shutdowns() {
    let tasks = plan_tasks(vec!["x".to_string(), "y".to_string()], 3);
    assert_eq!(
        tasks,
        vec![
            Work::File("x".to_string()),
            Work::File("y".to_string()),
            Work::Quit,
            Work::Quit,
            Work::Quit
        ]
    );
}

#[test]
fn plan_without_files() {
    assert_eq!(plan_tasks(Vec::new(), 2), vec![Work::Quit, Work::Quit]);
    assert_eq!(plan_tasks(Vec::new(), 0), Vec::<Work>::new());
}

#[test]
fn worker_decisions() {
    assert_eq!(next_action(Stolen::Empty), Action::Retry);
    assert_eq!(next_action(Stolen::Abort), Action::Retry);
    assert_eq!(next_action(Stolen::Data(Work::Quit)), Action::Stop);
    assert_eq!(
        next_action(Stolen::Data(Work::File("p".to_string()))),
        Action::Rewrite("p".to_string())
    );
}

#[test]
fn round_robin_run_visits_each_path_once_and_stops_each_worker_once() {
    let paths: Vec<String> = (0..7).map(|i| format!("f{}", i)).collect();
    let workers = 3;
    let mut queue = plan_tasks(paths.clone(), workers).into_iter();
    let mut running = vec![true; workers];
    let mut shutdowns = vec![0usize; workers];
    let mut visited = Vec::new();
    let mut w = 0;
    while running.iter().any(|r| *r) {
        if running[w] {
            let outcome = match queue.next() {
                Some(t) => Stolen::Data(t),
                None => Stolen::Empty,
            };
            match next_action(outcome) {
                Action::Retry => panic!("queue drained before every worker stopped"),
                Action::Rewrite(p) => visited.push(p),
                Action::Stop => {
                    running[w] = false;
                    shutdowns[w] += 1;
                }
            }
        }
        w = (w + 1) % workers;
    }
    assert_eq!(visited, paths);
    assert_eq!(shutdowns, vec![1, 1, 1]);
    assert!(queue.next().is_none());
}
