use thl_patcher::catalog::VersionTransition;
use thl_patcher::chain::{merge_fallback, ChainAction, DownloadAndPatchError, MergeStep, MoveOutcome, PatchChain};
use thl_patcher::tree::{apply_tree, diff_tree_chunked, ArchiveEntry, PatchError, TreeFile};

fn hops(n: usize) -> Vec<VersionTransition> {
    (0..n).map(|i| VersionTransition { old: i, new: i + 1, update_link: Some(format!("http://h/{i}")) }).collect()
}

fn describe(a: &ChainAction) -> String {
    match a {
        ChainAction::Begin(k) => format!("begin {k}"),
        ChainAction::Fetch(u) => format!("fetch {u}"),
        ChainAction::Apply => "apply".to_string(),
        ChainAction::Merge => "merge".to_string(),
        ChainAction::HopMerged(k) => format!("merged {k}"),
        ChainAction::Finished => "finished".to_string(),
        ChainAction::Failed(_) => "failed".to_string(),
    }
}

#[test]
fn chain_runs_every_hop_in_order() {
    let mut chain = PatchChain::new(hops(2));
    let mut seen = Vec::new();
    loop {
        let a = chain.next(Ok(()));
        seen.push(describe(&a));
        if matches!(a, ChainAction::Finished | ChainAction::Failed(_)) {
            break;
        }
    }
    assert_eq!(
        seen,
        vec![
            "begin 0", "fetch http://h/0", "apply", "merge", "merged 0", "begin 1", "fetch http://h/1", "apply",
            "merge", "merged 1", "finished"
        ]
    );
    assert_eq!(chain.merged, 2);
}

#[test]
fn failing_hop_is_never_merged() {
    let mut chain = PatchChain::new(hops(3));
    let mut seen = Vec::new();
    let mut outcome = Ok(());
    loop {
        let a = chain.next(outcome);
        seen.push(describe(&a));
        outcome = Ok(());
        if matches!(a, ChainAction::Apply) && chain.hop == 1 {
            outcome = Err(DownloadAndPatchError::PatchError(PatchError::TypeMismatch));
        }
        if matches!(a, ChainAction::Finished | ChainAction::Failed(_)) {
            break;
        }
    }
    assert_eq!(
        seen,
        vec!["begin 0", "fetch http://h/0", "apply", "merge", "merged 0", "begin 1", "fetch http://h/1", "apply", "failed"]
    );
    assert_eq!(chain.merged, 1);
}

#[test]
fn hop_without_link_fails() {
    let mut chain = PatchChain::new(vec![VersionTransition { old: 0, new: 1, update_link: None }]);
    assert!(matches!(chain.next(Ok(())), ChainAction::Begin(0)));
    assert!(matches!(chain.next(Ok(())), ChainAction::Failed(DownloadAndPatchError::NoUpdateLink)));
    assert_eq!(chain.merged, 0);
}

#[test]
fn empty_chain_finishes_at_once() {
    let mut chain = PatchChain::new(Vec::new());
    assert!(matches!(chain.next(Ok(())), ChainAction::Finished));
}

#[test]
fn failed_fetch_stops_the_chain() {
    let mut chain = PatchChain::new(hops(2));
    chain.next(Ok(()));
    chain.next(Ok(()));
    let a = chain.next(Err(DownloadAndPatchError::Minreq("unreachable host".to_string())));
    assert!(matches!(a, ChainAction::Failed(DownloadAndPatchError::Minreq(_))));
    assert_eq!(chain.merged, 0);
}

#[test]
fn cross_device_move_falls_back_to_copy() {
    assert!(matches!(merge_fallback(MoveOutcome::CrossesDevices), MergeStep::CopyInstead));
    assert!(matches!(merge_fallback(MoveOutcome::Moved), MergeStep::Done));
    assert!(matches!(merge_fallback(MoveOutcome::Failed("denied".to_string())), MergeStep::Failed(m) if m == "denied"));
}

fn tree(files: &[(&str, &[u8])]) -> Vec<TreeFile> {
    files.iter().map(|(p, c)| TreeFile { path: p.to_string(), content: c.to_vec() }).collect()
}

fn tree_view(t: &[TreeFile]) -> Vec<(String, Vec<u8>)> {
    let mut v: Vec<(String, Vec<u8>)> = t.iter().map(|f| (f.path.clone(), f.content.clone())).collect();
    v.sort();
    v
}

fn merge_into(live: &mut Vec<TreeFile>, staged: Vec<TreeFile>) {
    for f in staged {
        match live.iter_mut().find(|g| g.path == f.path) {
            Some(g) => g.content = f.content,
            None => live.push(f),
        }
    }
}

#[test]
fn failed_hop_leaves_the_tree_at_the_previous_version() {
    let t0 = tree(&[("a", b"version zero of a"), ("b", b"version zero of b")]);
    let t1 = tree(&[("a", b"version one of a!"), ("b", b"version zero of b")]);
    let t2 = tree(&[("a", b"version two of a"), ("b", b"version two of b")]);
    let t3 = tree(&[("a", b"version three of a"), ("b", b"version three of b")]);
    let diff = |x: &Vec<_>, y: &Vec<_>| match diff_tree_chunked(x, y, 1 << 16) {
        Ok(a) => a,
        Err(_) => panic!("diff failed"),
    };
    let mut corrupt = diff(&t1, &t2);
    for e in corrupt.iter_mut() {
        e.delta = b"this is no ddelta patch, only text".to_vec();
    }
    let archives: Vec<Vec<ArchiveEntry>> = vec![diff(&t0, &t1), corrupt, diff(&t2, &t3)];

    let mut live = tree(&[("a", b"version zero of a"), ("b", b"version zero of b")]);
    let mut chain = PatchChain::new(hops(3));
    let mut outcome = Ok(());
    let mut staged = Vec::new();
    let mut merges = Vec::new();
    let mut last_error = None;
    loop {
        let action = chain.next(outcome);
        outcome = Ok(());
        match action {
            ChainAction::Apply => match apply_tree(&live, &archives[chain.hop]) {
                Ok(s) => staged = s,
                Err(e) => outcome = Err(DownloadAndPatchError::PatchError(e)),
            },
            ChainAction::Merge => {
                merges.push(chain.hop);
                merge_into(&mut live, std::mem::take(&mut staged));
            }
            ChainAction::Finished => panic!("the second hop cannot succeed"),
            ChainAction::Failed(e) => {
                last_error = Some(e);
                break;
            }
            _ => {}
        }
    }
    assert_eq!(merges, vec![0]);
    assert!(matches!(last_error, Some(DownloadAndPatchError::PatchError(PatchError::DdeltaPatch(_)))));
    assert_eq!(chain.merged, 1);
    assert_eq!(tree_view(&live), tree_view(&t1));
    assert_ne!(tree_view(&live), tree_view(&t2));
}
