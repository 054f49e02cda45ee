//! How the clients are partitioned over the workers, and why the number of
//! workers does not change what comes out.

use crate::registry::lookup;
use crate::types::{ClientView, TransactionView};
use crate::worker::WorkerView;
use vstd::prelude::*;

verus! {

/// The worker that handles `client` when there are `workers` of them.
pub open spec fn group(client: u16, workers: nat) -> nat
    recommends
        workers > 0,
{
    (client as nat) % workers
}

/// Every client has a worker.
pub proof fn lemma_group_in_range(client: u16, workers: nat)
    requires
        workers > 0,
    ensures
        group(client, workers) < workers,
{
    assert((client as nat) % workers < workers) by (nonlinear_arith)
        requires
            workers > 0,
    ;
}

/// The test that picks the transactions of the worker `g`.
pub open spec fn in_group(workers: nat, g: nat) -> spec_fn(TransactionView) -> bool {
    |tx: TransactionView| group(tx.client, workers) == g
}

/// The transactions that reach the worker `g`, in the order of the input.
pub open spec fn routed(txs: Seq<TransactionView>, workers: nat, g: nat) -> Seq<TransactionView> {
    txs.filter(in_group(workers, g))
}

/// The worker `g` after the whole input.
pub open spec fn worker_after(txs: Seq<TransactionView>, workers: nat, g: nat) -> WorkerView {
    WorkerView::fresh().run(routed(txs, workers, g))
}

/// The accounts that the engine reports for an input: for each client the
/// account that its worker holds at the end, unless that worker has failed.
pub open spec fn final_states(txs: Seq<TransactionView>, workers: nat) -> Map<u16, ClientView> {
    Map::new(
        |client: u16|
            {
                let worker = worker_after(txs, workers, group(client, workers));
                !worker.failed && worker.states.contains_key(client)
            },
        |client: u16| worker_after(txs, workers, group(client, workers)).states[client],
    )
}

/// What a worker knows of one client: the account, if there is one, and the
/// registered deposits of that client by transaction id.
pub open spec fn share(worker: WorkerView, client: u16) -> (Option<ClientView>, Map<u32, int>) {
    (
        if worker.states.contains_key(client) {
            Some(worker.states[client])
        } else {
            None
        },
        Map::new(
            |tx: u32| worker.registry.contains_key((client, tx)),
            |tx: u32| worker.registry[(client, tx)],
        ),
    )
}

/// Routing one more transaction either appends it to a worker's sequence or
/// leaves the sequence as it was.
pub proof fn lemma_routed_push(txs: Seq<TransactionView>, tx: TransactionView, workers: nat, g: nat)
    ensures
        routed(txs.push(tx), workers, g) == if group(tx.client, workers) == g {
            routed(txs, workers, g).push(tx)
        } else {
            routed(txs, workers, g)
        },
{
    reveal(Seq::filter);
    assert(txs.push(tx).drop_last() =~= txs);
}

/// Running one more transaction is one more step.
pub proof fn lemma_run_push(worker: WorkerView, txs: Seq<TransactionView>, tx: TransactionView)
    ensures
        worker.run(txs.push(tx)) == worker.run(txs).step(tx),
{
    assert(txs.push(tx).drop_last() =~= txs);
}

/// A worker that has failed stays as it is.
pub proof fn lemma_failure_is_final(worker: WorkerView, txs: Seq<TransactionView>)
    requires
        worker.failed,
    ensures
        worker.run(txs) == worker,
    decreases txs.len(),
{
    if txs.len() > 0 {
        lemma_failure_is_final(worker, txs.drop_last());
    }
}

/// A transaction of one client does not touch what a worker knows of
/// another.
pub proof fn lemma_step_is_local(worker: WorkerView, tx: TransactionView, client: u16)
    requires
        tx.client != client,
    ensures
        share(worker.step(tx), client) == share(worker, client),
{
}

/// What a transaction does to its client depends on nothing but what the
/// worker knows of that client.
pub proof fn lemma_step_reads_its_client_only(
    a: WorkerView,
    b: WorkerView,
    tx: TransactionView,
)
    requires
        !a.failed,
        !b.failed,
        share(a, tx.client) == share(b, tx.client),
    ensures
        share(a.step(tx), tx.client) == share(b.step(tx), tx.client),
        a.step(tx).failed == b.step(tx).failed,
{
    let client = tx.client;
    assert forall|id: u32| #[trigger]
        lookup(a.registry, (client, id)) == lookup(b.registry, (client, id)) by {
        if share(a, client).1.contains_key(id) {
            assert(share(a, client).1[id] == share(b, client).1[id]);
        }
    }
    assert forall|id: u32| #[trigger]
        lookup(a.step(tx).registry, (client, id)) == lookup(b.step(tx).registry, (client, id)) by {
        assert(lookup(a.registry, (client, id)) == lookup(b.registry, (client, id)));
    }
    let left = share(a.step(tx), client).1;
    let right = share(b.step(tx), client).1;
    assert forall|id: u32|
        #![trigger left.dom().contains(id)]
        #![trigger right.dom().contains(id)]
        left.dom().contains(id) == right.dom().contains(id) && (left.dom().contains(id)
            ==> left[id] == right[id]) by {
        assert(lookup(a.step(tx).registry, (client, id)) == lookup(
            b.step(tx).registry,
            (client, id),
        ));
    }
}

/// A worker that sees only the transactions of its group knows of each of
/// its clients what a single worker that sees everything knows, as long as
/// the single worker does not fail.
pub proof fn lemma_group_agrees_with_whole(txs: Seq<TransactionView>, workers: nat, g: nat)
    requires
        workers > 0,
        !WorkerView::fresh().run(txs).failed,
    ensures
        !worker_after(txs, workers, g).failed,
        forall|client: u16|
            group(client, workers) == g ==> #[trigger] share(
                worker_after(txs, workers, g),
                client,
            ) == share(WorkerView::fresh().run(txs), client),
    decreases txs.len(),
{
    let fresh = WorkerView::fresh();
    if txs.len() == 0 {
        reveal(Seq::filter);
    } else {
        let head = txs.drop_last();
        let tx = txs.last();
        assert(head.push(tx) =~= txs);
        lemma_group_agrees_with_whole(head, workers, g);
        lemma_routed_push(head, tx, workers, g);
        let whole = fresh.run(head);
        let part = worker_after(head, workers, g);
        if group(tx.client, workers) == g {
            lemma_run_push(fresh, routed(head, workers, g), tx);
            lemma_step_reads_its_client_only(part, whole, tx);
        }
        assert forall|client: u16| group(client, workers) == g implies #[trigger] share(
            worker_after(txs, workers, g),
            client,
        ) == share(fresh.run(txs), client) by {
            if tx.client != client {
                lemma_step_is_local(whole, tx, client);
                lemma_step_is_local(part, tx, client);
            }
        }
    }
}

/// The number of workers does not change the result: as long as no balance
/// overflows when the transactions are applied in order, any two numbers of
/// workers give every client the same final account.
pub proof fn lemma_worker_count_is_immaterial(txs: Seq<TransactionView>, n: nat, m: nat)
    requires
        n > 0,
        m > 0,
        !WorkerView::fresh().run(txs).failed,
    ensures
        final_states(txs, n) == final_states(txs, m),
{
    lemma_final_states_of_whole(txs, n);
    lemma_final_states_of_whole(txs, m);
}

/// As long as a single worker that sees everything does not fail, the
/// accounts that the engine reports are those of that worker.
pub proof fn lemma_final_states_of_whole(txs: Seq<TransactionView>, workers: nat)
    requires
        workers > 0,
        !WorkerView::fresh().run(txs).failed,
    ensures
        final_states(txs, workers) == WorkerView::fresh().run(txs).states,
{
    let whole = WorkerView::fresh().run(txs);
    let reported = final_states(txs, workers);
    assert forall|client: u16|
        #![trigger reported.dom().contains(client)]
        #![trigger whole.states.dom().contains(client)]
        reported.dom().contains(client) == whole.states.dom().contains(client) && (
        whole.states.dom().contains(client) ==> reported[client] == whole.states[client]) by {
        let g = group(client, workers);
        lemma_group_agrees_with_whole(txs, workers, g);
        assert(share(worker_after(txs, workers, g), client) == share(whole, client));
    }
}

/// A worker holds accounts of its own group only.
pub proof fn lemma_accounts_belong_to_group(
    txs: Seq<TransactionView>,
    workers: nat,
    g: nat,
    client: u16,
)
    requires
        worker_after(txs, workers, g).states.contains_key(client),
    ensures
        group(client, workers) == g,
    decreases txs.len(),
{
    if txs.len() == 0 {
        reveal(Seq::filter);
    } else {
        let head = txs.drop_last();
        let tx = txs.last();
        assert(head.push(tx) =~= txs);
        lemma_routed_push(head, tx, workers, g);
        if group(tx.client, workers) == g {
            lemma_run_push(WorkerView::fresh(), routed(head, workers, g), tx);
            if client != tx.client {
                lemma_accounts_belong_to_group(head, workers, g, client);
            }
        } else {
            lemma_accounts_belong_to_group(head, workers, g, client);
        }
    }
}

/// Every account that the engine reports is recorded under its own client,
/// and its total is what is available plus what is held.
pub proof fn lemma_reported_accounts_are_balanced(
    txs: Seq<TransactionView>,
    workers: nat,
    client: u16,
)
    requires
        final_states(txs, workers).contains_key(client),
    ensures
        final_states(txs, workers)[client].client == client,
        final_states(txs, workers)[client].balanced(),
{
    WorkerView::fresh().lemma_run_keeps_wf(routed(txs, workers, group(client, workers)));
}

} // verus!
