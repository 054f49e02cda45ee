//! The engine: it routes each transaction of the input to the worker of its
//! client and gathers the accounts of all workers at the end.

use crate::partition::{
    final_states, group, lemma_accounts_belong_to_group, lemma_group_in_range,
    lemma_routed_push, lemma_run_push, routed, worker_after,
};
use crate::types::{ClientState, PenguinError, Transaction, TransactionView};
use crate::worker::{lemma_lists_len, lists, Worker, WorkerView};
use std::path::PathBuf;
use vstd::prelude::*;
use vstd::std_specs::convert::IntoSpec;

verus! {

/// `std::path::PathBuf`: the path of a log file is carried, never looked
/// into.
#[verifier::external_type_specification]
#[verifier::external_body]
pub struct ExPathBuf(PathBuf);

/// Whether every record of the input is a transaction.
pub open spec fn all_ok<E>(input: Seq<Result<Transaction, E>>) -> bool {
    forall|i: int| 0 <= i < input.len() ==> #[trigger] input[i] is Ok
}

/// Whether the record at index `i` is the first that is no transaction.
pub open spec fn first_error<E>(input: Seq<Result<Transaction, E>>, i: int) -> bool {
    &&& 0 <= i < input.len()
    &&& input[i] is Err
    &&& all_ok(input.take(i))
}

/// The transactions of an input whose records are all transactions.
pub open spec fn transactions<E>(input: Seq<Result<Transaction, E>>) -> Seq<TransactionView> {
    Seq::new(input.len(), |i: int| input[i]->Ok_0@)
}

/// The test that picks the workers that have not failed at the end of the
/// input.
pub open spec fn survives(txs: Seq<TransactionView>, workers: nat) -> spec_fn(nat) -> bool {
    |g: nat| !worker_after(txs, workers, g).failed
}

/// The workers below `upto` that have not failed, in ascending order.
pub open spec fn survivors_below(txs: Seq<TransactionView>, workers: nat, upto: nat) -> Seq<nat> {
    Seq::new(upto, |g: int| g as nat).filter(survives(txs, workers))
}

/// The workers that have not failed at the end of the input, in ascending
/// order.
pub open spec fn survivors(txs: Seq<TransactionView>, workers: nat) -> Seq<nat> {
    survivors_below(txs, workers, workers)
}

/// The accounts of all batches in one list, batch after batch.
pub open spec fn joined(batches: Seq<Vec<ClientState>>) -> Seq<ClientState> {
    batches.map_values(|batch: Vec<ClientState>| batch@).flatten()
}

/// Whether `batches` holds, worker by worker, the accounts of the workers
/// that have not failed.
pub open spec fn streams(
    batches: Seq<Vec<ClientState>>,
    txs: Seq<TransactionView>,
    workers: nat,
) -> bool {
    &&& batches.len() == survivors(txs, workers).len()
    &&& forall|j: int|
        0 <= j < batches.len() ==> lists(
            (#[trigger] batches[j])@,
            worker_after(txs, workers, survivors(txs, workers)[j]).states,
        )
}

/// The worker that handles `client`.
pub fn group_of(client: u16, num_workers: usize) -> (g: usize)
    requires
        num_workers > 0,
    ensures
        g == group(client, num_workers as nat),
        g < num_workers,
{
    (client as usize) % num_workers
}

/// What ingestion does with the record at `position`, counted from one: a
/// transaction goes to the worker of its client, anything else ends the run
/// with a parse error at that position.
pub fn dispatch<E>(record: &Result<Transaction, E>, position: usize, num_workers: usize) -> (r:
    Result<(usize, Transaction), PenguinError>)
    requires
        num_workers > 0,
    ensures
        r == match *record {
            Ok(tx) => Ok::<(usize, Transaction), PenguinError>(
                (group(tx.client, num_workers as nat) as usize, tx),
            ),
            Err(_) => Err(PenguinError::Parse(position)),
        },
{
    match record {
        Ok(tx) => Ok((group_of(tx.client, num_workers), *tx)),
        Err(_) => Err(PenguinError::Parse(position)),
    }
}

/// One fresh worker for each group.
fn start_workers(num_workers: usize) -> (workers: Vec<Worker>)
    ensures
        workers@.len() == num_workers,
        forall|g: int| 0 <= g < num_workers ==> (#[trigger] workers@[g])@ == WorkerView::fresh(),
{
    let mut workers: Vec<Worker> = Vec::new();
    let mut g: usize = 0;
    while g < num_workers
        invariant
            g <= num_workers,
            workers@.len() == g,
            forall|h: int| 0 <= h < g ==> (#[trigger] workers@[h])@ == WorkerView::fresh(),
        decreases num_workers - g,
    {
        workers.push(Worker::new());
        g += 1;
    }
    workers
}

/// Routes the input to the workers, record by record, until it ends or a
/// record is no transaction; the index of that record is the error.
fn ingest<E>(input: &Vec<Result<Transaction, E>>, num_workers: usize) -> (r: Result<
    Vec<Worker>,
    usize,
>)
    requires
        num_workers > 0,
    ensures
        match r {
            Ok(workers) => {
                &&& all_ok(input@)
                &&& workers@.len() == num_workers
                &&& forall|g: int|
                    0 <= g < num_workers ==> (#[trigger] workers@[g])@ == worker_after(
                        transactions(input@),
                        num_workers as nat,
                        g as nat,
                    )
            },
            Err(i) => first_error(input@, i as int),
        },
{
    let mut workers = start_workers(num_workers);
    let mut i: usize = 0;
    proof {
        reveal(Seq::filter);
    }
    while i < input.len()
        invariant
            num_workers > 0,
            i <= input@.len(),
            all_ok(input@.take(i as int)),
            workers@.len() == num_workers,
            forall|g: int|
                0 <= g < num_workers ==> (#[trigger] workers@[g])@ == worker_after(
                    transactions(input@.take(i as int)),
                    num_workers as nat,
                    g as nat,
                ),
        decreases input@.len() - i,
    {
        match dispatch(&input[i], i + 1, num_workers) {
            Ok((target, tx)) => {
                let _ = workers[target].process(&tx);
                proof {
                    let seen = transactions(input@.take(i as int));
                    let next = transactions(input@.take(i + 1));
                    assert(next =~= seen.push(tx@));
                    assert forall|g: int| 0 <= g < num_workers implies (#[trigger] workers@[g])@
                        == worker_after(next, num_workers as nat, g as nat) by {
                        lemma_routed_push(seen, tx@, num_workers as nat, g as nat);
                        if g == target {
                            lemma_run_push(
                                WorkerView::fresh(),
                                routed(seen, num_workers as nat, g as nat),
                                tx@,
                            );
                        }
                    }
                    assert forall|j: int| 0 <= j < i + 1 implies #[trigger] input@.take(i + 1)[j]
                        is Ok by {
                        assert(j < i ==> input@.take(i as int)[j] is Ok);
                    }
                }
            },
            Err(_) => {
                return Err(i);
            },
        }
        i += 1;
    }
    proof {
        assert(input@.take(i as int) =~= input@);
    }
    Ok(workers)
}

/// Whether `list` holds each account that the engine reports for the groups
/// below `upto` exactly once.
spec fn gathered(list: Seq<ClientState>, txs: Seq<TransactionView>, workers: nat, upto: nat)
    -> bool {
    let states = final_states(txs, workers);
    &&& forall|i: int|
        0 <= i < list.len() ==> states.contains_key(#[trigger] list[i].client)
            && states[list[i].client] == list[i]@ && group(list[i].client, workers) < upto
    &&& forall|i: int, j: int|
        0 <= i < j < list.len() ==> #[trigger] list[i].client != #[trigger] list[j].client
    &&& forall|client: u16| #[trigger]
        states.contains_key(client) && group(client, workers) < upto ==> exists|i: int|
            0 <= i < list.len() && #[trigger] list[i].client == client
}

/// Adding the accounts of the worker `g` to those of the groups below it
/// gives those of the groups up to `g`.
proof fn lemma_gather_batch(
    list: Seq<ClientState>,
    batch: Seq<ClientState>,
    txs: Seq<TransactionView>,
    workers: nat,
    g: nat,
)
    requires
        g < workers,
        gathered(list, txs, workers, g),
        !worker_after(txs, workers, g).failed,
        lists(batch, worker_after(txs, workers, g).states),
    ensures
        gathered(list + batch, txs, workers, g + 1),
{
    let states = final_states(txs, workers);
    let all = list + batch;
    assert forall|i: int| 0 <= i < batch.len() implies group(
        #[trigger] batch[i].client,
        workers,
    ) == g by {
        lemma_accounts_belong_to_group(txs, workers, g, batch[i].client);
    }
    assert forall|client: u16| #[trigger]
        states.contains_key(client) && group(client, workers) < g + 1 implies exists|i: int|
        0 <= i < all.len() && #[trigger] all[i].client == client by {
        if group(client, workers) < g {
            let i = choose|i: int| 0 <= i < list.len() && #[trigger] list[i].client == client;
            assert(all[i].client == client);
        } else {
            assert(worker_after(txs, workers, g).states.contains_key(client));
            let i = choose|i: int| 0 <= i < batch.len() && #[trigger] batch[i].client == client;
            assert(all[list.len() + i].client == client);
        }
    }
    assert forall|i: int| 0 <= i < all.len() implies states.contains_key(
        #[trigger] all[i].client,
    ) && states[all[i].client] == all[i]@ && group(all[i].client, workers) < g + 1 by {
        assert(i >= list.len() ==> all[i] == batch[i - list.len()]);
    }
    assert forall|i: int, j: int| 0 <= i < j < all.len() implies #[trigger] all[i].client
        != #[trigger] all[j].client by {
        assert(i >= list.len() ==> all[i] == batch[i - list.len()]);
        assert(j >= list.len() ==> all[j] == batch[j - list.len()]);
    }
}

/// A failed worker adds nothing.
proof fn lemma_gather_nothing(
    list: Seq<ClientState>,
    txs: Seq<TransactionView>,
    workers: nat,
    g: nat,
)
    requires
        g < workers,
        gathered(list, txs, workers, g),
        worker_after(txs, workers, g).failed,
    ensures
        gathered(list, txs, workers, g + 1),
{
}

/// The survivors below `upto + 1` are those below `upto` and, if it has not
/// failed, the worker `upto`.
proof fn lemma_survivors_push(txs: Seq<TransactionView>, workers: nat, upto: nat)
    ensures
        survivors_below(txs, workers, upto + 1) == if worker_after(txs, workers, upto).failed {
            survivors_below(txs, workers, upto)
        } else {
            survivors_below(txs, workers, upto).push(upto)
        },
{
    reveal(Seq::filter);
    assert(Seq::new(upto + 1, |g: int| g as nat).drop_last() =~= Seq::new(
        upto,
        |g: int| g as nat,
    ));
}

/// The survivors below `upto` are the first of all survivors.
proof fn lemma_survivors_prefix(txs: Seq<TransactionView>, workers: nat, upto: nat)
    requires
        upto <= workers,
    ensures
        survivors_below(txs, workers, upto).len() <= survivors(txs, workers).len(),
        survivors(txs, workers).take(survivors_below(txs, workers, upto).len() as int)
            == survivors_below(txs, workers, upto),
    decreases workers - upto,
{
    let all = survivors(txs, workers);
    let below = survivors_below(txs, workers, upto);
    if upto == workers {
    } else {
        lemma_survivors_prefix(txs, workers, upto + 1);
        lemma_survivors_push(txs, workers, upto);
        let next = survivors_below(txs, workers, upto + 1);
        assert(all.take(below.len() as int) =~= all.take(next.len() as int).take(
            below.len() as int,
        ));
    }
}

/// The batches of the survivors below `upto`, joined, hold each account of
/// the groups below `upto` exactly once.
proof fn lemma_stream_prefix(
    batches: Seq<Vec<ClientState>>,
    txs: Seq<TransactionView>,
    workers: nat,
    upto: nat,
)
    requires
        upto <= workers,
        streams(batches, txs, workers),
    ensures
        survivors_below(txs, workers, upto).len() <= batches.len(),
        gathered(
            joined(batches.take(survivors_below(txs, workers, upto).len() as int)),
            txs,
            workers,
            upto,
        ),
    decreases upto,
{
    let view = |batch: Vec<ClientState>| batch@;
    lemma_survivors_prefix(txs, workers, upto);
    if upto == 0 {
        reveal(Seq::filter);
        assert(batches.take(0).map_values(view) =~= Seq::<Seq<ClientState>>::empty());
    } else {
        let g = (upto - 1) as nat;
        let count = survivors_below(txs, workers, g).len() as int;
        lemma_stream_prefix(batches, txs, workers, g);
        lemma_survivors_push(txs, workers, g);
        lemma_survivors_prefix(txs, workers, g);
        let list = joined(batches.take(count));
        if worker_after(txs, workers, g).failed {
            lemma_gather_nothing(list, txs, workers, g);
        } else {
            assert(survivors(txs, workers)[count] == survivors(txs, workers).take(count + 1)[count]);
            assert(batches.take(count + 1).map_values(view) =~= batches.take(count).map_values(
                view,
            ).push(batches[count]@));
            batches.take(count).map_values(view).lemma_flatten_push(batches[count]@);
            lemma_gather_batch(list, batches[count]@, txs, workers, g);
        }
    }
}

/// What the engine streams is what it returns in one list: the batches,
/// joined, hold each account that the engine reports exactly once.
pub proof fn lemma_stream_holds_every_account(
    batches: Seq<Vec<ClientState>>,
    txs: Seq<TransactionView>,
    workers: nat,
)
    requires
        workers > 0,
        streams(batches, txs, workers),
    ensures
        lists(joined(batches), final_states(txs, workers)),
{
    lemma_stream_prefix(batches, txs, workers, workers);
    assert(batches.take(batches.len() as int) =~= batches);
    assert forall|client: u16| group(client, workers) < workers by {
        lemma_group_in_range(client, workers);
    }
}

/// The accounts of all workers that have not failed, in one list.
fn gather(workers: Vec<Worker>, Ghost(txs): Ghost<Seq<TransactionView>>) -> (list: Vec<
    ClientState,
>)
    requires
        workers@.len() > 0,
        forall|g: int|
            0 <= g < workers@.len() ==> (#[trigger] workers@[g])@ == worker_after(
                txs,
                workers@.len(),
                g as nat,
            ),
    ensures
        lists(list@, final_states(txs, workers@.len())),
{
    let ghost all = workers@;
    let ghost count = all.len();
    let mut list: Vec<ClientState> = Vec::new();
    for worker in iter: workers
        invariant
            iter.seq() == all,
            count == all.len(),
            count > 0,
            forall|g: int|
                0 <= g < count ==> (#[trigger] all[g])@ == worker_after(txs, count, g as nat),
            gathered(list@, txs, count, iter.index() as nat),
    {
        let ghost g = iter.index() as nat;
        match worker.finish() {
            Some(mut batch) => {
                proof {
                    lemma_gather_batch(list@, batch@, txs, count, g);
                }
                list.append(&mut batch);
            },
            None => {
                proof {
                    lemma_gather_nothing(list@, txs, count, g);
                }
            },
        }
    }
    proof {
        assert forall|client: u16| group(client, count) < count by {
            lemma_group_in_range(client, count);
        }
    }
    list
}

/// The accounts of the workers that have not failed, worker by worker.
fn stream(workers: Vec<Worker>, Ghost(txs): Ghost<Seq<TransactionView>>) -> (batches: Vec<
    Vec<ClientState>,
>)
    requires
        forall|g: int|
            0 <= g < workers@.len() ==> (#[trigger] workers@[g])@ == worker_after(
                txs,
                workers@.len(),
                g as nat,
            ),
    ensures
        streams(batches@, txs, workers@.len()),
{
    let ghost all = workers@;
    let ghost count = all.len();
    let mut batches: Vec<Vec<ClientState>> = Vec::new();
    proof {
        reveal(Seq::filter);
    }
    for worker in iter: workers
        invariant
            iter.seq() == all,
            count == all.len(),
            forall|g: int|
                0 <= g < count ==> (#[trigger] all[g])@ == worker_after(txs, count, g as nat),
            batches@.len() == survivors_below(txs, count, iter.index() as nat).len(),
            forall|j: int|
                0 <= j < batches@.len() ==> lists(
                    (#[trigger] batches@[j])@,
                    worker_after(
                        txs,
                        count,
                        survivors_below(txs, count, iter.index() as nat)[j],
                    ).states,
                ),
    {
        let ghost g = iter.index() as nat;
        proof {
            lemma_survivors_push(txs, count, g);
        }
        match worker.finish() {
            Some(batch) => {
                batches.push(batch);
            },
            None => {},
        }
    }
    batches
}

/// The engine, ready to run: the input, the number of workers and the path
/// of the log file, if one was asked for.
///
/// Every engine has at least one worker.
pub struct Penguin<T> {
    reader: T,
    num_workers: usize,
    log_file: Option<PathBuf>,
}

impl<T> Penguin<T> {
    #[verifier::type_invariant]
    closed spec fn inv(self) -> bool {
        self.num_workers > 0
    }

    /// The input.
    pub closed spec fn input(self) -> T {
        self.reader
    }

    /// The number of workers.
    pub closed spec fn workers(self) -> nat {
        self.num_workers as nat
    }

    /// The path of the log file.
    pub closed spec fn log_path(self) -> Option<PathBuf> {
        self.log_file
    }

    /// The number of workers; there is at least one.
    pub fn num_workers(&self) -> (r: usize)
        ensures
            r == self.workers(),
            r > 0,
    {
        proof {
            use_type_invariant(self);
        }
        self.num_workers
    }

    /// The path of the log file, if logging was asked for.
    pub fn log_file(&self) -> (r: Option<&PathBuf>)
        ensures
            match r {
                Some(path) => self.log_path() == Some(*path),
                None => self.log_path() is None,
            },
    {
        self.log_file.as_ref()
    }

    /// The worker that handles `client`.
    pub fn group_of(&self, client: u16) -> (g: usize)
        ensures
            g == group(client, self.workers()),
            g < self.workers(),
    {
        proof {
            use_type_invariant(self);
        }
        group_of(client, self.num_workers)
    }

    /// Gives the input back, with the number of workers.
    pub fn into_parts(self) -> (r: (T, usize))
        ensures
            r.0 == self.input(),
            r.1 == self.workers(),
            r.1 > 0,
    {
        proof {
            use_type_invariant(&self);
        }
        (self.reader, self.num_workers)
    }
}

impl<E> Penguin<Vec<Result<Transaction, E>>> {
    /// Takes the input out and routes it to fresh workers.
    fn drain(&mut self) -> (r: Result<Vec<Worker>, PenguinError>)
        ensures
            final(self).workers() == old(self).workers(),
            final(self).log_path() == old(self).log_path(),
            match r {
                Ok(workers) => {
                    &&& all_ok(old(self).input()@)
                    &&& final(self).input()@ == Seq::<Result<Transaction, E>>::empty()
                    &&& workers@.len() == old(self).workers()
                    &&& forall|g: int|
                        0 <= g < workers@.len() ==> (#[trigger] workers@[g])@ == worker_after(
                            transactions(old(self).input()@),
                            old(self).workers(),
                            g as nat,
                        )
                },
                Err(e) => {
                    &&& e matches PenguinError::Parse(position)
                    &&& first_error(old(self).input()@, position - 1)
                    &&& final(self).input()@ == old(self).input()@.skip(position as int)
                },
            },
    {
        proof {
            use_type_invariant(&*self);
        }
        let mut input: Vec<Result<Transaction, E>> = Vec::new();
        std::mem::swap(&mut self.reader, &mut input);
        match ingest(&input, self.num_workers) {
            Ok(workers) => Ok(workers),
            Err(i) => {
                assert(i < input.len());
                let rest = input.split_off(i + 1);
                self.reader = rest;
                Err(PenguinError::Parse(i + 1))
            },
        }
    }

    /// Runs the engine over the whole input and returns the final account
    /// of every client, each once and in no particular order.
    ///
    /// The input is used up. A record that is no transaction ends the run
    /// with a parse error that gives its position, counted from one; the
    /// input then keeps the records behind it. The accounts of a worker
    /// that has failed are left out.
    pub fn run(&mut self) -> (r: Result<Vec<ClientState>, PenguinError>)
        ensures
            final(self).workers() == old(self).workers(),
            final(self).log_path() == old(self).log_path(),
            r is Ok <==> all_ok(old(self).input()@),
            match r {
                Ok(list) => {
                    &&& all_ok(old(self).input()@)
                    &&& final(self).input()@ == Seq::<Result<Transaction, E>>::empty()
                    &&& lists(
                        list@,
                        final_states(transactions(old(self).input()@), old(self).workers()),
                    )
                    &&& list@.len() == final_states(
                        transactions(old(self).input()@),
                        old(self).workers(),
                    ).len()
                },
                Err(e) => {
                    &&& e matches PenguinError::Parse(position)
                    &&& first_error(old(self).input()@, position - 1)
                    &&& final(self).input()@ == old(self).input()@.skip(position as int)
                },
            },
    {
        proof {
            use_type_invariant(&*self);
        }
        let ghost txs = transactions(self.input()@);
        match self.drain() {
            Ok(workers) => {
                let list = gather(workers, Ghost(txs));
                proof {
                    lemma_lists_len(list@, final_states(txs, old(self).workers()));
                }
                Ok(list)
            },
            Err(e) => Err(e),
        }
    }

    /// Runs the engine over the whole input and returns the final accounts
    /// worker by worker: one batch for each worker that has not failed, in
    /// the order of the workers.
    ///
    /// The input is used up, and a record that is no transaction ends the
    /// run, as in [`Penguin::run`].
    pub fn get_stream(&mut self) -> (r: Result<Vec<Vec<ClientState>>, PenguinError>)
        ensures
            final(self).workers() == old(self).workers(),
            final(self).log_path() == old(self).log_path(),
            r is Ok <==> all_ok(old(self).input()@),
            match r {
                Ok(batches) => {
                    &&& all_ok(old(self).input()@)
                    &&& final(self).input()@ == Seq::<Result<Transaction, E>>::empty()
                    &&& streams(
                        batches@,
                        transactions(old(self).input()@),
                        old(self).workers(),
                    )
                },
                Err(e) => {
                    &&& e matches PenguinError::Parse(position)
                    &&& first_error(old(self).input()@, position - 1)
                    &&& final(self).input()@ == old(self).input()@.skip(position as int)
                },
            },
    {
        let ghost txs = transactions(self.input()@);
        match self.drain() {
            Ok(workers) => Ok(stream(workers, Ghost(txs))),
            Err(e) => Err(e),
        }
    }
}

/// Collects what an engine needs: the input, the number of workers and the
/// path of a log file.
pub struct PenguinBuilder<T> {
    reader: T,
    num_workers: Option<usize>,
    log_file: Option<PathBuf>,
}

impl<T> PenguinBuilder<T> {
    #[verifier::type_invariant]
    closed spec fn inv(self) -> bool {
        self.num_workers != Some(0usize)
    }

    /// The input.
    pub closed spec fn input(self) -> T {
        self.reader
    }

    /// The number of workers, if one was set.
    pub closed spec fn workers(self) -> Option<usize> {
        self.num_workers
    }

    /// The path of the log file, if one was set.
    pub closed spec fn log_path(self) -> Option<PathBuf> {
        self.log_file
    }

    /// A builder for an engine over `reader`, with nothing else set.
    pub fn from_reader(reader: T) -> (r: Self)
        ensures
            r.input() == reader,
            r.workers() is None,
            r.log_path() is None,
    {
        PenguinBuilder { reader, num_workers: None, log_file: None }
    }

    /// Sets the number of workers over which the clients are partitioned.
    pub fn with_num_workers(self, num_workers: usize) -> (r: Self)
        requires
            num_workers > 0,
        ensures
            r.input() == self.input(),
            r.workers() == Some(num_workers),
            r.log_path() == self.log_path(),
    {
        PenguinBuilder {
            reader: self.reader,
            num_workers: Some(num_workers),
            log_file: self.log_file,
        }
    }

    /// Asks for a log file at `path`.
    pub fn with_logger<P: Into<PathBuf>>(self, path: P) -> (r: Self)
        ensures
            r.input() == self.input(),
            r.workers() == self.workers(),
            r.log_path() is Some,
            P::obeys_into_spec() ==> r.log_path() == Some(path.into_spec()),
    {
        proof {
            use_type_invariant(&self);
        }
        PenguinBuilder {
            reader: self.reader,
            num_workers: self.num_workers,
            log_file: Some(path.into()),
        }
    }

    /// The engine: with the number of workers that was set, or with one.
    pub fn build(self) -> (r: Penguin<T>)
        ensures
            r.input() == self.input(),
            r.workers() == match self.workers() {
                Some(n) => n as nat,
                None => 1,
            },
            r.log_path() == self.log_path(),
    {
        proof {
            use_type_invariant(&self);
        }
        let num_workers = match self.num_workers {
            Some(n) => n,
            None => 1,
        };
        Penguin { reader: self.reader, num_workers, log_file: self.log_file }
    }
}

} // verus!
