use ditto::graph::close_reach;

#[test]
fn it_closes_a_graph_under_paths() {
    // 0 -> 1 -> 2, 3 -> 3, 4 alone
    let mut reach = vec![
        vec![false, true, false, false, false],
        vec![false, false, true, false, false],
        vec![false, false, false, false, false],
        vec![false, false, false, true, false],
        vec![false, false, false, false, false],
    ];
    close_reach(&mut reach, 5);
    assert_eq!(
        reach,
        vec![
            vec![false, true, true, false, false],
            vec![false, false, true, false, false],
            vec![false, false, false, false, false],
            vec![false, false, false, true, false],
            vec![false, false, false, false, false],
        ]
    );
}

#[test]
fn it_finds_cycles_when_closing() {
    // 0 -> 1 -> 2 -> 0
    let mut reach = vec![vec![false, true, false], vec![false, false, true], vec![true, false, false]];
    close_reach(&mut reach, 3);
    assert_eq!(reach, vec![vec![true; 3]; 3]);
}
