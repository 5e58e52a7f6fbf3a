use vstd::prelude::*;

verus! {

/// The capability shared by every routing policy.
///
/// Each implementation supplies its own transition relations
/// (`select_ens`, `start_ens`, `complete_ens`), so a caller that knows the
/// concrete type sees the exact behaviour of the variant, while a generic
/// caller still learns that a selection returns one of the workers and that
/// the worker list never changes.
pub trait LBStrategy: Sized {
    /// Well-formedness of the strategy state.  Every constructor establishes
    /// it and every method preserves it; it includes a non-empty worker list,
    /// so a selection can always pick a worker.
    spec fn wf(&self) -> bool;

    /// The ordered worker list, as it was given at construction.
    spec fn hosts(&self) -> Seq<Seq<char>>;

    /// Transition relation of one selection: `post` is the state after the
    /// call and `w` the selected worker.
    spec fn select_ens(&self, post: Self, w: Seq<char>) -> bool;

    /// Transition relation of the start-of-request hook.
    spec fn start_ens(&self, post: Self, worker: Seq<char>) -> bool;

    /// Transition relation of the end-of-request hook.
    spec fn complete_ens(&self, post: Self, worker: Seq<char>) -> bool;

    /// Chooses the worker for the next request, updating whatever rotation
    /// or bookkeeping state the policy keeps.
    fn get_next_worker(&mut self) -> (w: String)
        requires
            old(self).wf(),
        ensures
            final(self).wf(),
            final(self).hosts() == old(self).hosts(),
            old(self).hosts().contains(w@),
            old(self).select_ens(*final(self), w@),
    ;

    /// Lifecycle hook: an outbound request to `worker` is about to start.
    fn on_request_start(&mut self, worker: &str)
        requires
            old(self).wf(),
        ensures
            final(self).wf(),
            final(self).hosts() == old(self).hosts(),
            old(self).start_ens(*final(self), worker@),
    ;

    /// Lifecycle hook: the outbound request to `worker` has finished,
    /// successfully or not.
    fn on_request_complete(&mut self, worker: &str)
        requires
            old(self).wf(),
        ensures
            final(self).wf(),
            final(self).hosts() == old(self).hosts(),
            old(self).complete_ens(*final(self), worker@),
    ;

    /// The worker list, in construction order.
    fn get_worker_hosts(&self) -> (v: Vec<String>)
        requires
            self.wf(),
        ensures
            v@.map_values(|h: String| h@) == self.hosts(),
    ;
}

} // verus!
