use dst_admin_rust::dst_config::{cluster_anchor, ClusterPathError, PathPiece};

fn normal(s: &str) -> PathPiece {
    PathPiece::Normal(s.to_owned())
}

#[test]
fn default_klei_root_is_reached_from_the_application_root() {
    let c = vec![PathPiece::Root, normal("srv"), normal("app"), normal(".klei"), normal("DoNotStarveTogether"), normal("Cluster1")];
    let a = cluster_anchor(&c).ok().expect("anchors");
    assert_eq!(a.base_len, 3);
    assert_eq!(a.relative, vec![".klei", "DoNotStarveTogether", "Cluster1"]);
}

#[test]
fn other_klei_roots_are_reached_from_their_parent() {
    let c = vec![PathPiece::Root, normal("data"), normal("DoNotStarveTogetherBetaBranch"), normal("Cluster2")];
    let a = cluster_anchor(&c).ok().expect("anchors");
    assert_eq!(a.base_len, 2);
    assert_eq!(a.relative, vec!["DoNotStarveTogetherBetaBranch", "Cluster2"]);
}

#[test]
fn cluster_paths_without_names_are_refused() {
    assert!(matches!(cluster_anchor(&vec![PathPiece::Root]), Err(ClusterPathError::MissingClusterName)));
    assert!(matches!(cluster_anchor(&vec![normal("a"), PathPiece::ParentDir]), Err(ClusterPathError::MissingClusterName)));
    assert!(matches!(cluster_anchor(&vec![normal("Cluster1")]), Err(ClusterPathError::MissingKleiRootName)));
    assert!(matches!(cluster_anchor(&vec![PathPiece::Root, normal("Cluster1")]), Err(ClusterPathError::MissingKleiRootName)));
    let bad = cluster_anchor(&vec![PathPiece::Root, normal("k"), normal(" x")]);
    match bad {
        Err(e) => assert_eq!(e.message(), "invalid cluster name: cannot have surrounding whitespace"),
        Ok(_) => panic!("a padded cluster name is refused"),
    }
}
