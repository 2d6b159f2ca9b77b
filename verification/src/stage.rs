//! The stage chain: named promotion points linked into a pipeline.
//!
//! Hooks are opaque handles of the caller's choosing; the library keeps
//! them in attachment order and never looks inside them.

use vstd::prelude::*;

verus! {

/// One promotion point: a branch name, its post-merge hooks in
/// attachment order, and at most one successor.
pub struct Branch<H> {
    pub name: String,
    pub hooks: Vec<H>,
    pub next_branch: Option<Box<Branch<H>>>,
}

impl<H> Branch<H> {
    /// The stages reached by following successor links from this one,
    /// this one first.
    pub open spec fn chain(self) -> Seq<Branch<H>>
        decreases self,
    {
        match self.next_branch {
            None => seq![self],
            Some(b) => seq![self] + (*b).chain(),
        }
    }

    /// A chain always holds at least the stage it starts from.
    pub proof fn lemma_chain_first(self)
        ensures
            self.chain().len() >= 1,
            self.chain()[0] == self,
    {
    }

    /// A stage with no hooks and no successor.
    pub fn new(name: &str) -> (r: Self)
        ensures
            r.name@ == name@,
            r.hooks@ =~= Seq::<H>::empty(),
            r.next_branch is None,
    {
        Branch { name: name.to_owned(), hooks: Vec::new(), next_branch: None }
    }

    /// Appends a hook; hooks run in attachment order.
    pub fn when_merged(&mut self, hook: H)
        ensures
            final(self).name == old(self).name,
            final(self).hooks@ == old(self).hooks@.push(hook),
            final(self).next_branch == old(self).next_branch,
    {
        self.hooks.push(hook);
    }

    /// Sets or replaces the successor stage.
    pub fn then(&mut self, next: Branch<H>)
        ensures
            final(self).name == old(self).name,
            final(self).hooks == old(self).hooks,
            final(self).next_branch is Some,
            *final(self).next_branch->Some_0 == next,
    {
        self.next_branch = Some(Box::new(next));
    }
}

/// Owns a stage chain and materializes it into the ordered pipeline.
pub struct DSLRunner<H> {
    pub start_node: Branch<H>,
}

impl<H> DSLRunner<H> {
    /// The ordered pipeline: the start stage and everything after it.
    pub open spec fn pipeline(self) -> Seq<Branch<H>> {
        self.start_node.chain()
    }

    /// The stage names in pipeline order.
    pub open spec fn pipeline_names(self) -> Seq<Seq<char>> {
        self.pipeline().map_values(|b: Branch<H>| b.name@)
    }

    /// How many hooks each stage carries, in pipeline order.
    pub open spec fn pipeline_hook_counts(self) -> Seq<usize> {
        self.pipeline().map_values(|b: Branch<H>| b.hooks.len() as usize)
    }

    pub fn new(start_node: Branch<H>) -> (r: Self)
        ensures
            r.start_node == start_node,
    {
        DSLRunner { start_node }
    }

    /// Follows successor links from the start stage and returns the
    /// stages in order.
    pub fn get_pipeline(&self) -> (r: Vec<&Branch<H>>)
        ensures
            r@.len() == self.pipeline().len(),
            forall|i: int| 0 <= i < r@.len() ==> *r@[i] == self.pipeline()[i],
    {
        let mut pipeline: Vec<&Branch<H>> = Vec::new();
        let mut current: Option<&Branch<H>> = Some(&self.start_node);
        proof {
            assert(self.pipeline().skip(0) =~= self.pipeline());
        }
        while current.is_some()
            invariant
                pipeline@.len() <= self.pipeline().len(),
                forall|i: int| 0 <= i < pipeline@.len() ==> *pipeline@[i] == self.pipeline()[i],
                match current {
                    Some(b) => (*b).chain() =~= self.pipeline().skip(pipeline@.len() as int),
                    None => pipeline@.len() == self.pipeline().len(),
                },
            decreases (match current {
                Some(b) => (*b).chain().len(),
                None => 0nat,
            }),
        {
            let b = current.unwrap();
            proof {
                b.lemma_chain_first();
            }
            pipeline.push(b);
            current = match &b.next_branch {
                Some(nb) => Some(&**nb),
                None => None,
            };
            proof {
                let k = pipeline@.len() as int;
                match &b.next_branch {
                    Some(nb) => {
                        assert(b.chain() == seq![*b] + (**nb).chain());
                        assert((**nb).chain() =~= b.chain().drop_first());
                        assert(b.chain().drop_first() =~= self.pipeline().skip(k - 1).drop_first());
                        assert(self.pipeline().skip(k - 1).drop_first() =~= self.pipeline().skip(k));
                    },
                    None => {
                        assert(b.chain() == seq![*b]);
                        assert(self.pipeline().skip(k) =~= Seq::<Branch<H>>::empty());
                    },
                }
            }
        }
        pipeline
    }

    /// The stage names in pipeline order, as owned strings.
    pub fn stage_names(&self) -> (r: Vec<String>)
        ensures
            r.deep_view() == self.pipeline_names(),
    {
        let p = self.get_pipeline();
        let mut r: Vec<String> = Vec::new();
        let mut i: usize = 0;
        while i < p.len()
            invariant
                i <= p@.len(),
                p@.len() == self.pipeline().len(),
                forall|j: int| 0 <= j < p@.len() ==> *p@[j] == self.pipeline()[j],
                r@.len() == i,
                forall|j: int| 0 <= j < i ==> r@[j]@ == self.pipeline()[j].name@,
            decreases p@.len() - i,
        {
            r.push(p[i].name.clone());
            i = i + 1;
        }
        assert(r.deep_view() =~= self.pipeline_names());
        r
    }

    /// The per-stage hook counts in pipeline order.
    pub fn hook_counts(&self) -> (r: Vec<usize>)
        ensures
            r@ == self.pipeline_hook_counts(),
    {
        let p = self.get_pipeline();
        let mut r: Vec<usize> = Vec::new();
        let mut i: usize = 0;
        while i < p.len()
            invariant
                i <= p@.len(),
                p@.len() == self.pipeline().len(),
                forall|j: int| 0 <= j < p@.len() ==> *p@[j] == self.pipeline()[j],
                r@.len() == i,
                forall|j: int| 0 <= j < i ==> r@[j] == self.pipeline()[j].hooks@.len(),
            decreases p@.len() - i,
        {
            r.push(p[i].hooks.len());
            i = i + 1;
        }
        assert(r@ =~= self.pipeline_hook_counts());
        r
    }
}

} // verus!
