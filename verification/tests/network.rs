use gossip_consensus::{
    pairwise_distances, start_simulation, transactions_for, Entry, EntryRequest, MailboxError,
    NewPeerBatch, Node, Reply, ResponseError, Simulation, SystemAddrs, Tracker, Transaction,
    Wallet, ODDSKETCH_LEN, ODDSKETCH_LEN_BITS,
};

fn nodes(count: usize, sample_size: usize) -> Vec<Node> {
    (0..count).map(|_| Node::new(1, 100, 0, sample_size)).collect()
}

fn bootstrap(sim: &mut Simulation) {
    for (to, batch) in sim.tracker.started() {
        sim.nodes[to].handle_new_peer_batch(batch);
    }
}

fn heartbeat(all: &mut Vec<Node>, which: usize) {
    let sample = all[which].sample_peers();
    let replies: Vec<Reply> =
        sample.iter().map(|peer| Ok(all[*peer].handle_entry_request(EntryRequest))).collect();
    all[which].reconcile(&replies);
}

fn observe(sim: &Simulation) -> Vec<Reply> {
    sim.addrs
        .requests()
        .into_iter()
        .map(|(to, request)| Ok(sim.nodes[to].handle_entry_request(request)))
        .collect()
}

fn marked(mass: u32, bits: &[usize]) -> Entry {
    let mut entry = Entry { oddsketch: [0; ODDSKETCH_LEN], mass };
    for index in bits {
        entry.toggle(*index);
    }
    entry
}

#[test]
fn tracker_sends_every_node_the_others() {
    let tracker = Tracker::new(vec![10, 20, 30]);
    assert_eq!(tracker.nodes(), &vec![10, 20, 30]);
    let sends = tracker.started();
    assert_eq!(
        sends,
        vec![
            (10, NewPeerBatch(vec![20, 30])),
            (20, NewPeerBatch(vec![10, 30])),
            (30, NewPeerBatch(vec![10, 20])),
        ]
    );
}

#[test]
fn tracker_without_nodes_sends_nothing() {
    assert!(Tracker::new(Vec::new()).started().is_empty());
    assert_eq!(Tracker::new(vec![5]).started(), vec![(5, NewPeerBatch(vec![]))]);
}

#[test]
fn tracker_fan_out() {
    let mut sim = start_simulation(nodes(4, 3), 1, 50);
    bootstrap(&mut sim);
    for (i, node) in sim.nodes.iter().enumerate() {
        assert_eq!(node.peers().len(), 3);
        for j in 0..4usize {
            let count = node.peers().iter().filter(|peer| **peer == j).count();
            assert_eq!(count, if i == j { 0 } else { 1 });
        }
    }
}

#[test]
fn tracker_completeness_on_a_larger_network() {
    let mut sim = start_simulation(nodes(33, 3), 1, 50);
    bootstrap(&mut sim);
    for (i, node) in sim.nodes.iter().enumerate() {
        let expected: Vec<usize> = (0..33).filter(|j| *j != i).collect();
        assert_eq!(node.peers(), &expected);
    }
}

#[test]
fn start_simulation_wires_the_handles() {
    let sim = start_simulation(nodes(5, 2), 3, 75);
    assert_eq!(sim.nodes.len(), 5);
    assert_eq!(sim.addrs.node_addrs, vec![0, 1, 2, 3, 4]);
    assert_eq!(sim.tracker.nodes(), &vec![0, 1, 2, 3, 4]);
    assert_eq!(sim.wallet.nodes(), &vec![0, 1, 2, 3, 4]);
    assert_eq!(sim.wallet.sample_size(), 3);
    assert_eq!(sim.wallet.broadcast_interval(), 75);
    for node in sim.nodes.iter() {
        assert_eq!(node.sample_size(), 2);
        assert_eq!(node.entry(), Entry::new());
    }
}

#[test]
fn start_simulation_without_nodes() {
    let sim = start_simulation(Vec::new(), 1, 1);
    assert!(sim.nodes.is_empty());
    assert!(sim.addrs.node_addrs.is_empty());
    assert!(sim.tracker.started().is_empty());
    assert!(sim.wallet.broadcast().is_empty());
}

#[test]
fn transactions_for_carry_one_seed() {
    assert_eq!(
        transactions_for(&vec![4, 1, 9], 77),
        vec![(4, Transaction(77)), (1, Transaction(77)), (9, Transaction(77))]
    );
    assert!(transactions_for(&Vec::new(), 1).is_empty());
}

#[test]
fn wallet_broadcasts_to_distinct_nodes() {
    let wallet = Wallet::new((0..20).collect(), 5, 10);
    for _ in 0..200 {
        let sends = wallet.broadcast();
        assert_eq!(sends.len(), 5);
        let seed = sends[0].1;
        for (k, (to, tx)) in sends.iter().enumerate() {
            assert!(*to < 20);
            assert_eq!(*tx, seed);
            assert!(sends[..k].iter().all(|(earlier, _)| earlier != to));
        }
    }
}

#[test]
fn wallet_with_a_large_fan_reaches_every_node() {
    let wallet = Wallet::new(vec![3, 5, 8], 32, 10);
    let mut targets: Vec<usize> = wallet.broadcast().iter().map(|(to, _)| *to).collect();
    targets.sort();
    assert_eq!(targets, vec![3, 5, 8]);
}

#[test]
fn wallet_seeds_differ() {
    let wallet = Wallet::new(vec![0], 1, 10);
    let first = wallet.broadcast()[0].1;
    let mut differs = false;
    for _ in 0..50 {
        if wallet.broadcast()[0].1 != first {
            differs = true;
        }
    }
    assert!(differs);
}

#[test]
fn requests_go_to_every_node_in_order() {
    let addrs = SystemAddrs { node_addrs: vec![0, 1, 2] };
    assert_eq!(addrs.requests(), vec![(0, EntryRequest), (1, EntryRequest), (2, EntryRequest)]);
}

#[test]
fn get_all_entries_drops_refusals() {
    let addrs = SystemAddrs { node_addrs: vec![0, 1, 2] };
    let replies: Vec<Reply> =
        vec![Ok(Ok(marked(1, &[1]))), Ok(Err(ResponseError)), Ok(Ok(marked(2, &[2])))];
    assert_eq!(addrs.get_all_entries(&replies), Ok(vec![marked(1, &[1]), marked(2, &[2])]));
    assert_eq!(addrs.get_all_entries(&Vec::new()), Ok(Vec::new()));
}

#[test]
fn get_all_entries_fails_on_the_first_mailbox_error() {
    let addrs = SystemAddrs { node_addrs: vec![0, 1, 2, 3] };
    let replies: Vec<Reply> = vec![
        Ok(Ok(marked(1, &[1]))),
        Err(MailboxError::Timeout),
        Ok(Err(ResponseError)),
        Err(MailboxError::Closed),
    ];
    assert_eq!(addrs.get_all_entries(&replies), Err(MailboxError::Timeout));
    assert_eq!(addrs.get_all_distances(&replies), Err(MailboxError::Timeout));
    let replies: Vec<Reply> = vec![Err(MailboxError::Closed), Err(MailboxError::Timeout)];
    assert_eq!(addrs.get_all_entries(&replies), Err(MailboxError::Closed));
}

#[test]
fn pairwise_distances_are_row_major() {
    let entries = vec![
        marked(0, &[]),
        marked(0, &[1]),
        marked(0, &[1, 2, 3]),
        marked(0, &[1000, 1001, 1002, 1003, 1004, 1005, 1006]),
    ];
    // (1,0), (2,0), (2,1), (3,0), (3,1), (3,2)
    assert_eq!(pairwise_distances(&entries), vec![1, 3, 2, 7, 8, 10]);
}

#[test]
fn pairwise_distances_of_few_entries() {
    assert!(pairwise_distances(&Vec::new()).is_empty());
    assert!(pairwise_distances(&vec![marked(3, &[4])]).is_empty());
    assert_eq!(pairwise_distances(&vec![marked(3, &[4]), marked(9, &[4])]), vec![0]);
}

#[test]
fn pairwise_distance_stands_at_its_index() {
    let entries: Vec<Entry> = (0..9usize).map(|i| marked(0, &[i, 2 * i + 100])).collect();
    let distances = pairwise_distances(&entries);
    assert_eq!(distances.len(), 9 * 8 / 2);
    for i in 0..9usize {
        for j in 0..i {
            assert_eq!(distances[i * (i - 1) / 2 + j], entries[i].distance(&entries[j]));
        }
    }
}

#[test]
fn get_all_distances_skips_nodes_that_refused() {
    let addrs = SystemAddrs { node_addrs: vec![0, 1, 2] };
    let replies: Vec<Reply> =
        vec![Ok(Ok(marked(1, &[1]))), Ok(Err(ResponseError)), Ok(Ok(marked(2, &[2])))];
    assert_eq!(addrs.get_all_distances(&replies), Ok(vec![2]));
}

#[test]
fn distance_matrix_shape() {
    let mut sim = start_simulation(nodes(5, 3), 2, 50);
    bootstrap(&mut sim);
    for round in 0..20usize {
        for (to, tx) in sim.wallet.broadcast() {
            sim.nodes[to].handle_transaction(tx);
        }
        heartbeat(&mut sim.nodes, round % 5);
    }
    let replies = observe(&sim);
    let distances = sim.addrs.get_all_distances(&replies).unwrap();
    assert_eq!(distances.len(), 10);
    for distance in distances {
        assert!(distance as usize <= ODDSKETCH_LEN_BITS);
    }
    assert_eq!(sim.addrs.get_all_entries(&replies).unwrap().len(), 5);
}

#[test]
fn two_node_convergence() {
    let mut all = nodes(2, 4);
    all[0].handle_new_peer_batch(NewPeerBatch(vec![1]));
    all[1].handle_new_peer_batch(NewPeerBatch(vec![0]));
    let wallet = Wallet::new(vec![0], 1, 50);
    let mut now_ms = 0;
    while now_ms < 5_000 {
        now_ms += 50;
        for (to, tx) in wallet.broadcast() {
            assert_eq!(to, 0);
            all[to].handle_transaction(tx);
        }
        if now_ms % 100 == 0 {
            heartbeat(&mut all, 0);
            heartbeat(&mut all, 1);
        }
    }
    assert_eq!(all[0].entry().distance(&all[1].entry()), 0);
    assert_eq!(all[0].entry(), all[1].entry());
}

#[test]
fn two_nodes_agree_after_one_round() {
    let mut all = nodes(2, 1);
    all[0].handle_new_peer_batch(NewPeerBatch(vec![1]));
    all[1].handle_new_peer_batch(NewPeerBatch(vec![0]));
    all[0].apply_transaction(3, 500);
    all[1].apply_transaction(900, 700);
    assert_eq!(all[0].entry().distance(&all[1].entry()), 2);
    heartbeat(&mut all, 1);
    heartbeat(&mut all, 0);
    assert_eq!(all[0].entry(), all[1].entry());
    assert_eq!(all[0].entry(), marked(700, &[900]));
}

#[test]
fn network_settles_on_the_heaviest_entry() {
    let mut sim = start_simulation(nodes(6, 5), 1, 50);
    bootstrap(&mut sim);
    for i in 0..6usize {
        sim.nodes[i].apply_transaction(10 * i, 100 + i as u32);
    }
    for i in 0..6usize {
        heartbeat(&mut sim.nodes, i);
    }
    let replies = observe(&sim);
    let distances = sim.addrs.get_all_distances(&replies).unwrap();
    assert_eq!(distances, vec![0; 15]);
    assert_eq!(sim.nodes[0].entry(), marked(105, &[50]));
}
