use libpenguin::amount::Amount;
use libpenguin::engine::{dispatch, group_of, PenguinBuilder};
use libpenguin::types::{ClientState, PenguinError, Transaction, TransactionType};

fn money(value: &str) -> Amount {
    Amount::parse(value).expect("valid decimal")
}

fn record(tx_type: TransactionType, client: u16, tx: u32, amount: Option<Amount>) -> Transaction {
    Transaction {
        tx_type,
        client,
        tx,
        amount,
    }
}

fn check_state(state: &ClientState, client: u16, available: Amount, held: Amount, total: Amount) {
    assert_eq!(state.client, client);
    assert_eq!(state.available, available);
    assert_eq!(state.held, held);
    assert_eq!(state.total, total);
}

fn sample() -> Vec<Transaction> {
    vec![
        record(TransactionType::Deposit, 1, 1, Some(money("10"))),
        record(TransactionType::Deposit, 2, 2, Some(money("20"))),
        record(TransactionType::Deposit, 3, 3, Some(money("30"))),
        record(TransactionType::Withdrawal, 1, 4, Some(money("2.5"))),
        record(TransactionType::Dispute, 2, 2, None),
        record(TransactionType::Deposit, 4, 5, Some(money("1.25"))),
        record(TransactionType::Resolve, 2, 2, None),
        record(TransactionType::Dispute, 3, 3, None),
        record(TransactionType::Chargeback, 3, 3, None),
        record(TransactionType::Deposit, 3, 6, Some(money("7"))),
        record(TransactionType::Withdrawal, 4, 7, Some(money("5"))),
        record(TransactionType::Deposit, 7, 8, None),
        record(TransactionType::Deposit, 65535, 9, Some(money("0.0001"))),
    ]
}

fn run_with(workers: usize, txs: &[Transaction]) -> Vec<ClientState> {
    let reader: Vec<Result<Transaction, ()>> = txs.iter().map(|tx| Ok(*tx)).collect();
    let mut penguin = PenguinBuilder::from_reader(reader)
        .with_num_workers(workers)
        .build();
    let mut output = penguin.run().expect("run should succeed");
    output.sort_by_key(|state| state.client);
    output
}

#[test]
fn run_multiple_clients_with_mixed_transactions() {
    let inputs = [
        "deposit, 1, 1, 1.0",
        "deposit, 2, 2, 2.0",
        "deposit, 1, 3, 2.0",
        "withdrawal, 1, 4, 1.5",
        "withdrawal, 2, 5, 3.0",
        "deposit, 1, 5,",
    ];
    let reader: Vec<Result<Transaction, PenguinError>> = inputs
        .into_iter()
        .map(|line| {
            Ok::<Transaction, PenguinError>(line.parse::<Transaction>().expect("valid transaction"))
        })
        .collect();
    let mut penguin = PenguinBuilder::from_reader(reader)
        .with_num_workers(2)
        .build();

    let mut output = penguin.run().expect("run should succeed");
    output.sort_by_key(|state| state.client);

    assert_eq!(output.len(), 2);
    check_state(&output[0], 1, money("1.5"), money("0"), money("1.5"));
    check_state(&output[1], 2, money("2"), money("0"), money("2"));
    assert!(!output[0].locked);
    assert!(!output[1].locked);
}

#[test]
fn run_returns_parse_error_with_line_number() {
    let reader = vec![
        Ok(record(TransactionType::Deposit, 1, 1, Some(money("1.0")))),
        Err(()),
    ];
    let mut penguin = PenguinBuilder::from_reader(reader)
        .with_num_workers(1)
        .build();

    let err = penguin.run().expect_err("expected parse error");
    assert!(matches!(err, PenguinError::Parse(2)));
}

#[test]
fn run_reports_the_first_record_that_is_no_transaction() {
    let reader: Vec<Result<Transaction, u8>> = vec![
        Err(7),
        Ok(record(TransactionType::Deposit, 1, 1, Some(money("1.0")))),
        Err(8),
    ];
    let mut penguin = PenguinBuilder::from_reader(reader).build();

    assert_eq!(penguin.run(), Err(PenguinError::Parse(1)));
    let (rest, workers) = penguin.into_parts();
    assert_eq!(workers, 1);
    assert_eq!(rest.len(), 2);
    assert!(rest[0].is_ok());
    assert_eq!(rest[1], Err(8));
}

#[test]
fn run_uses_up_the_input() {
    let reader: Vec<Result<Transaction, ()>> = vec![
        Ok(record(TransactionType::Deposit, 1, 1, Some(money("1.0")))),
        Ok(record(TransactionType::Deposit, 2, 2, Some(money("1.0")))),
    ];
    let mut penguin = PenguinBuilder::from_reader(reader)
        .with_num_workers(3)
        .build();

    assert_eq!(penguin.run().expect("run should succeed").len(), 2);
    assert_eq!(penguin.run(), Ok(vec![]));
    assert_eq!(penguin.num_workers(), 3);
}

#[test]
fn run_on_empty_input_reports_no_account() {
    let reader: Vec<Result<Transaction, ()>> = vec![];
    let mut penguin = PenguinBuilder::from_reader(reader)
        .with_num_workers(4)
        .build();
    assert_eq!(penguin.run(), Ok(vec![]));
}

#[test]
fn chargeback_scenario_locks_the_account() {
    let txs = [
        record(TransactionType::Deposit, 1, 1, Some(money("1.0"))),
        record(TransactionType::Dispute, 1, 1, None),
        record(TransactionType::Chargeback, 1, 1, None),
    ];
    let output = run_with(2, &txs);
    assert_eq!(output.len(), 1);
    check_state(&output[0], 1, money("0"), money("0"), money("0"));
    assert!(output[0].locked);

    let mut more = txs.to_vec();
    more.push(record(TransactionType::Deposit, 1, 2, Some(money("5.0"))));
    let output = run_with(2, &more);
    assert_eq!(output.len(), 1);
    check_state(&output[0], 1, money("0"), money("0"), money("0"));
    assert!(output[0].locked);
}

#[test]
fn worker_count_does_not_change_the_result() {
    let txs = sample();
    let single = run_with(1, &txs);
    assert_eq!(single.len(), 6);
    check_state(&single[0], 1, money("7.5"), money("0"), money("7.5"));
    check_state(&single[1], 2, money("20"), money("0"), money("20"));
    check_state(&single[2], 3, money("0"), money("0"), money("0"));
    assert!(single[2].locked);
    check_state(&single[3], 4, money("1.25"), money("0"), money("1.25"));
    check_state(&single[4], 7, money("0"), money("0"), money("0"));
    check_state(&single[5], 65535, money("0.0001"), money("0"), money("0.0001"));
    for workers in [2usize, 3, 4, 5, 8, 64, 65535, 65536, 70000] {
        assert_eq!(run_with(workers, &txs), single);
    }
}

#[test]
fn build_defaults_to_one_worker() {
    let reader: Vec<Result<Transaction, ()>> = vec![];
    let penguin = PenguinBuilder::from_reader(reader).build();
    assert_eq!(penguin.num_workers(), 1);
    assert!(penguin.log_file().is_none());
    assert_eq!(penguin.group_of(12345), 0);
}

#[test]
fn builder_keeps_what_was_set() {
    let reader: Vec<Result<Transaction, ()>> =
        vec![Ok(record(TransactionType::Dispute, 1, 1, None))];
    let penguin = PenguinBuilder::from_reader(reader)
        .with_logger("penguin.log")
        .with_num_workers(6)
        .build();
    assert_eq!(penguin.num_workers(), 6);
    assert_eq!(
        penguin.log_file().map(|path| path.to_string_lossy().into_owned()),
        Some("penguin.log".to_string())
    );
    assert_eq!(penguin.group_of(13), 1);
    let (reader, workers) = penguin.into_parts();
    assert_eq!(workers, 6);
    assert_eq!(reader.len(), 1);
}

#[test]
fn clients_are_routed_by_remainder() {
    assert_eq!(group_of(0, 1), 0);
    assert_eq!(group_of(65535, 1), 0);
    assert_eq!(group_of(10, 4), 2);
    assert_eq!(group_of(11, 4), 3);
    assert_eq!(group_of(12, 4), 0);
    assert_eq!(group_of(65535, 65536), 65535);
    assert_eq!(group_of(65535, 100_000), 65535);
    assert_eq!(group_of(65535, 65535), 0);
}

#[test]
fn dispatch_routes_transactions_and_stops_at_errors() {
    let tx = record(TransactionType::Deposit, 9, 1, Some(money("1")));
    assert_eq!(dispatch::<()>(&Ok(tx), 1, 4), Ok((1, tx)));
    assert_eq!(dispatch::<()>(&Ok(tx), 17, 9), Ok((0, tx)));
    assert_eq!(dispatch(&Err("bad"), 3, 4), Err(PenguinError::Parse(3)));
}

#[test]
fn stream_gives_one_batch_for_each_worker() {
    let reader: Vec<Result<Transaction, ()>> = sample().into_iter().map(Ok).collect();
    let mut penguin = PenguinBuilder::from_reader(reader)
        .with_num_workers(4)
        .build();
    let mut batches = penguin.get_stream().expect("stream should succeed");
    assert_eq!(batches.len(), 4);
    for batch in batches.iter_mut() {
        batch.sort_by_key(|state| state.client);
    }
    let clients: Vec<Vec<u16>> = batches
        .iter()
        .map(|batch| batch.iter().map(|state| state.client).collect())
        .collect();
    assert_eq!(clients, vec![vec![4], vec![1], vec![2], vec![3, 7, 65535]]);
    check_state(&batches[1][0], 1, money("7.5"), money("0"), money("7.5"));
    check_state(&batches[3][0], 3, money("0"), money("0"), money("0"));
}

#[test]
fn stream_reports_parse_errors_as_run_does() {
    let reader: Vec<Result<Transaction, ()>> = vec![
        Ok(record(TransactionType::Deposit, 1, 1, Some(money("1.0")))),
        Ok(record(TransactionType::Deposit, 1, 2, Some(money("1.0")))),
        Err(()),
        Ok(record(TransactionType::Deposit, 1, 3, Some(money("1.0")))),
    ];
    let mut penguin = PenguinBuilder::from_reader(reader)
        .with_num_workers(2)
        .build();
    assert_eq!(penguin.get_stream(), Err(PenguinError::Parse(3)));
    let (rest, _) = penguin.into_parts();
    assert_eq!(rest.len(), 1);
}

#[test]
fn failed_worker_is_left_out_of_the_result() {
    let most = Amount::from_units(79_228_162_514_264_337_593_543_950_335).expect("in range");
    let txs = [
        record(TransactionType::Deposit, 1, 1, Some(money("1"))),
        record(TransactionType::Deposit, 2, 2, Some(most)),
        record(TransactionType::Deposit, 4, 3, Some(money("3"))),
        record(TransactionType::Deposit, 2, 4, Some(money("0.0001"))),
        record(TransactionType::Deposit, 4, 5, Some(money("1"))),
        record(TransactionType::Deposit, 1, 6, Some(money("1"))),
    ];
    let output = run_with(2, &txs);
    assert_eq!(output.len(), 1);
    check_state(&output[0], 1, money("2"), money("0"), money("2"));

    assert_eq!(run_with(1, &txs), vec![]);

    let reader: Vec<Result<Transaction, ()>> = txs.iter().map(|tx| Ok(*tx)).collect();
    let mut penguin = PenguinBuilder::from_reader(reader)
        .with_num_workers(2)
        .build();
    let batches = penguin.get_stream().expect("stream should succeed");
    assert_eq!(batches.len(), 1);
    assert_eq!(batches[0].len(), 1);
    assert_eq!(batches[0][0].client, 1);
}

struct Sequence(u64);

impl Sequence {
    fn next(&mut self, bound: u64) -> u64 {
        self.0 = self
            .0
            .wrapping_mul(6364136223846793005)
            .wrapping_add(1442695040888963407);
        (self.0 >> 33) % bound
    }
}

fn generated(count: usize) -> Vec<Transaction> {
    let mut sequence = Sequence(42);
    let mut txs = Vec::with_capacity(count);
    for _ in 0..count {
        let client = sequence.next(9) as u16;
        let tx = sequence.next(40) as u32;
        let units = sequence.next(5_000_000) as i128;
        let amount = Amount::from_units(units).expect("in range");
        let step = match sequence.next(10) {
            0..=3 => record(TransactionType::Deposit, client, tx, Some(amount)),
            4..=5 => record(TransactionType::Withdrawal, client, tx, Some(amount)),
            6 => record(TransactionType::Dispute, client, tx, None),
            7 => record(TransactionType::Resolve, client, tx, None),
            8 => record(TransactionType::Chargeback, client, tx, None),
            _ => record(TransactionType::Deposit, client, tx, None),
        };
        txs.push(step);
    }
    txs
}

fn expected(txs: &[Transaction]) -> Vec<(u16, i128, i128, i128, bool)> {
    let mut accounts: std::collections::BTreeMap<u16, (i128, i128, i128, bool)> =
        std::collections::BTreeMap::new();
    let mut registry: std::collections::BTreeMap<(u16, u32), i128> =
        std::collections::BTreeMap::new();
    for step in txs {
        let account = accounts.entry(step.client).or_insert((0, 0, 0, false));
        if account.3 {
            continue;
        }
        let key = (step.client, step.tx);
        match (step.tx_type, step.amount.map(|a| a.units())) {
            (TransactionType::Deposit, Some(amount)) => {
                registry.entry(key).or_insert(amount);
                account.0 += amount;
                account.2 += amount;
            }
            (TransactionType::Withdrawal, Some(amount)) => {
                if account.0 >= amount {
                    account.0 -= amount;
                    account.2 -= amount;
                }
            }
            (TransactionType::Dispute, _) => {
                if let Some(amount) = registry.get(&key) {
                    account.1 += amount;
                    account.0 -= amount;
                }
            }
            (TransactionType::Resolve, _) => {
                if let Some(amount) = registry.remove(&key) {
                    account.1 -= amount;
                    account.0 += amount;
                }
            }
            (TransactionType::Chargeback, _) => {
                if let Some(amount) = registry.remove(&key) {
                    account.1 -= amount;
                    account.2 -= amount;
                    account.3 = true;
                }
            }
            _ => {}
        }
    }
    accounts
        .into_iter()
        .map(|(client, (available, held, total, locked))| (client, available, held, total, locked))
        .collect()
}

fn observed(states: &[ClientState]) -> Vec<(u16, i128, i128, i128, bool)> {
    states
        .iter()
        .map(|state| {
            (
                state.client,
                state.available.units(),
                state.held.units(),
                state.total.units(),
                state.locked,
            )
        })
        .collect()
}

#[test]
fn long_runs_agree_with_plain_integer_arithmetic() {
    for count in [0usize, 1, 10, 200, 3000] {
        let txs = generated(count);
        let wanted = expected(&txs);
        for workers in [1usize, 2, 3, 7, 16] {
            let output = run_with(workers, &txs);
            assert_eq!(observed(&output), wanted, "{} transactions, {} workers", count, workers);
            for state in output.iter() {
                assert_eq!(
                    state.available.units() + state.held.units(),
                    state.total.units()
                );
            }
        }
    }
}

#[test]
fn stream_and_run_report_the_same_accounts() {
    let txs = generated(500);
    for workers in [1usize, 4, 9] {
        let reader: Vec<Result<Transaction, ()>> = txs.iter().map(|tx| Ok(*tx)).collect();
        let mut penguin = PenguinBuilder::from_reader(reader)
            .with_num_workers(workers)
            .build();
        let batches = penguin.get_stream().expect("stream should succeed");
        assert_eq!(batches.len(), workers);
        for (group, batch) in batches.iter().enumerate() {
            for state in batch.iter() {
                assert_eq!(usize::from(state.client) % workers, group);
            }
        }
        let mut streamed: Vec<ClientState> = batches.into_iter().flatten().collect();
        streamed.sort_by_key(|state| state.client);
        assert_eq!(streamed, run_with(workers, &txs));
    }
}
