//! Preloaders: idempotent cache-warming actions run before the hot path.
//!
//! Each preloader names the resources it would warm and guards itself
//! with a flag, so running it twice does no more than running it once.
//! The orchestrator runs preloaders in registration order and skips any
//! whose cumulative estimated memory would break the budget. The
//! warming itself (file reads, DNS, clients) is I/O and happens outside
//! the library; a preloader hands back the list of targets to warm.

use vstd::prelude::*;

verus! {

/// A component that can warm caches before the first invocation.
pub trait Preloadable {
    /// Whether the warm-up already ran.
    spec fn spec_preloaded(&self) -> bool;

    /// The component's fixed memory estimate.
    spec fn spec_cost(&self) -> usize;

    /// Mark the component preloaded and return the targets to warm;
    /// an already-preloaded component returns nothing.
    fn preload(&mut self) -> (r: Vec<String>)
        ensures
            final(self).spec_preloaded(),
            old(self).spec_preloaded() ==> r@.len() == 0,
    ;

    /// The component's name.
    fn name(&self) -> &'static str;

    /// Estimated memory footprint of the preloaded resources in bytes.
    fn estimated_memory(&self) -> (r: usize)
        ensures
            r == self.spec_cost(),
    ;
}

/// Warms the Lambda runtime directories.
pub struct LambdaRuntimePreloader {
    /// Whether the warm-up already ran.
    pub preloaded: bool,
}

impl LambdaRuntimePreloader {
    /// A preloader that has not run yet.
    pub fn new() -> (r: LambdaRuntimePreloader)
        ensures
            !r.preloaded,
    {
        LambdaRuntimePreloader { preloaded: false }
    }
}

impl Preloadable for LambdaRuntimePreloader {
    open spec fn spec_preloaded(&self) -> bool {
        self.preloaded
    }

    open spec fn spec_cost(&self) -> usize {
        65536
    }

    fn preload(&mut self) -> (r: Vec<String>)
        ensures
            final(self).preloaded,
            old(self).preloaded ==> r@.len() == 0 && *final(self) == *old(self),
    {
        if self.preloaded {
            return Vec::new();
        }
        self.preloaded = true;
        let mut targets: Vec<String> = Vec::new();
        targets.push("/var/runtime".to_owned());
        targets.push("/var/lang/bin".to_owned());
        targets.push("/var/rapid".to_owned());
        targets.push("/opt/extensions".to_owned());
        targets
    }

    fn name(&self) -> (r: &'static str) {
        "lambda_runtime"
    }

    fn estimated_memory(&self) -> (r: usize) {
        65536
    }
}

/// Warms DNS and TLS state for a list of endpoints.
pub struct NetworkPreloader {
    /// Whether the warm-up already ran.
    pub preloaded: bool,
    /// The endpoints to resolve.
    pub endpoints: Vec<String>,
}

impl NetworkPreloader {
    /// A preloader for the given endpoints.
    pub fn new(endpoints: Vec<String>) -> (r: NetworkPreloader)
        ensures
            !r.preloaded,
            r.endpoints == endpoints,
    {
        NetworkPreloader { preloaded: false, endpoints }
    }

    /// A preloader for the common AWS service endpoints.
    pub fn with_default_aws_endpoints() -> (r: NetworkPreloader)
        ensures
            !r.preloaded,
            r.endpoints@.len() == 5,
    {
        let mut endpoints: Vec<String> = Vec::new();
        endpoints.push("dynamodb.us-east-1.amazonaws.com".to_owned());
        endpoints.push("s3.amazonaws.com".to_owned());
        endpoints.push("sqs.us-east-1.amazonaws.com".to_owned());
        endpoints.push("lambda.us-east-1.amazonaws.com".to_owned());
        endpoints.push("logs.us-east-1.amazonaws.com".to_owned());
        NetworkPreloader { preloaded: false, endpoints }
    }
}

impl Preloadable for NetworkPreloader {
    open spec fn spec_preloaded(&self) -> bool {
        self.preloaded
    }

    open spec fn spec_cost(&self) -> usize {
        32768
    }

    fn preload(&mut self) -> (r: Vec<String>)
        ensures
            final(self).preloaded,
            old(self).preloaded ==> r@.len() == 0 && *final(self) == *old(self),
    {
        if self.preloaded {
            return Vec::new();
        }
        self.preloaded = true;
        self.endpoints.clone()
    }

    fn name(&self) -> (r: &'static str) {
        "network_preload"
    }

    fn estimated_memory(&self) -> (r: usize) {
        32768
    }
}

/// Warms commonly used dynamic libraries into the page cache.
pub struct LibraryPreloader {
    /// Whether the warm-up already ran.
    pub preloaded: bool,
    /// The library names to look for.
    pub libraries: Vec<String>,
}

impl LibraryPreloader {
    /// A preloader for the given libraries.
    pub fn new(libraries: Vec<String>) -> (r: LibraryPreloader)
        ensures
            !r.preloaded,
            r.libraries == libraries,
    {
        LibraryPreloader { preloaded: false, libraries }
    }

    /// A preloader for the libraries most runtimes rely on.
    pub fn with_common_libraries() -> (r: LibraryPreloader)
        ensures
            !r.preloaded,
            r.libraries@.len() == 4,
    {
        let mut libraries: Vec<String> = Vec::new();
        libraries.push("libssl.so".to_owned());
        libraries.push("libcrypto.so".to_owned());
        libraries.push("libz.so".to_owned());
        libraries.push("libc.so.6".to_owned());
        LibraryPreloader { preloaded: false, libraries }
    }
}

impl Preloadable for LibraryPreloader {
    open spec fn spec_preloaded(&self) -> bool {
        self.preloaded
    }

    open spec fn spec_cost(&self) -> usize {
        if self.libraries@.len() <= usize::MAX as int / 4096 {
            (4096 * self.libraries@.len()) as usize
        } else {
            usize::MAX
        }
    }

    fn preload(&mut self) -> (r: Vec<String>)
        ensures
            final(self).preloaded,
            old(self).preloaded ==> r@.len() == 0 && *final(self) == *old(self),
    {
        if self.preloaded {
            return Vec::new();
        }
        self.preloaded = true;
        self.libraries.clone()
    }

    fn name(&self) -> (r: &'static str) {
        "library_preload"
    }

    fn estimated_memory(&self) -> (r: usize) {
        if self.libraries.len() <= usize::MAX / 4096 {
            4096 * self.libraries.len()
        } else {
            usize::MAX
        }
    }
}

/// Primes AWS SDK credentials and, optionally, an HTTP client pool.
pub struct AwsSdkPreloader {
    /// Whether the warm-up already ran.
    pub preloaded: bool,
    /// Whether an HTTP client pool should be primed too.
    pub use_http_client: bool,
}

impl AwsSdkPreloader {
    /// A preloader, with or without HTTP client priming.
    pub fn new(use_http_client: bool) -> (r: AwsSdkPreloader)
        ensures
            !r.preloaded,
            r.use_http_client == use_http_client,
    {
        AwsSdkPreloader { preloaded: false, use_http_client }
    }
}

impl Preloadable for AwsSdkPreloader {
    open spec fn spec_preloaded(&self) -> bool {
        self.preloaded
    }

    open spec fn spec_cost(&self) -> usize {
        if self.use_http_client {
            262144
        } else {
            16384
        }
    }

    fn preload(&mut self) -> (r: Vec<String>)
        ensures
            final(self).preloaded,
            old(self).preloaded ==> r@.len() == 0 && *final(self) == *old(self),
    {
        if self.preloaded {
            return Vec::new();
        }
        self.preloaded = true;
        let mut targets: Vec<String> = Vec::new();
        targets.push("AWS_REGION".to_owned());
        targets.push("AWS_ACCESS_KEY_ID".to_owned());
        targets.push("AWS_SECRET_ACCESS_KEY".to_owned());
        targets.push("AWS_SESSION_TOKEN".to_owned());
        if self.use_http_client {
            targets.push("http_client_pool".to_owned());
        }
        targets
    }

    fn name(&self) -> (r: &'static str) {
        "aws_sdk"
    }

    fn estimated_memory(&self) -> (r: usize) {
        if self.use_http_client {
            262144
        } else {
            16384
        }
    }
}

/// Primes the Lambda extension API client.
pub struct LambdaExtensionApiPreloader {
    /// Whether the warm-up already ran.
    pub preloaded: bool,
}

impl LambdaExtensionApiPreloader {
    /// A preloader that has not run yet.
    pub fn new() -> (r: LambdaExtensionApiPreloader)
        ensures
            !r.preloaded,
    {
        LambdaExtensionApiPreloader { preloaded: false }
    }
}

impl Preloadable for LambdaExtensionApiPreloader {
    open spec fn spec_preloaded(&self) -> bool {
        self.preloaded
    }

    open spec fn spec_cost(&self) -> usize {
        32768
    }

    fn preload(&mut self) -> (r: Vec<String>)
        ensures
            final(self).preloaded,
            old(self).preloaded ==> r@.len() == 0 && *final(self) == *old(self),
    {
        if self.preloaded {
            return Vec::new();
        }
        self.preloaded = true;
        let mut targets: Vec<String> = Vec::new();
        targets.push("AWS_LAMBDA_RUNTIME_API".to_owned());
        targets
    }

    fn name(&self) -> (r: &'static str) {
        "lambda_extension_api"
    }

    fn estimated_memory(&self) -> (r: usize) {
        32768
    }
}

/// Which components a memory budget admits: walking the costs in order,
/// a component is taken exactly when the cost spent so far plus its own
/// stays within the limit.
pub open spec fn spec_select(costs: Seq<usize>, limit: Option<usize>) -> Seq<bool>
    decreases costs.len(),
{
    spec_select_from(costs, limit, 0)
}

pub open spec fn spec_select_from(costs: Seq<usize>, limit: Option<usize>, spent: int) -> Seq<bool>
    decreases costs.len(),
{
    if costs.len() == 0 {
        Seq::empty()
    } else {
        let take = match limit {
            None => true,
            Some(l) => spent + costs[0] <= l,
        };
        seq![take] + spec_select_from(
            costs.drop_first(),
            limit,
            if take {
                spent + costs[0]
            } else {
                spent
            },
        )
    }
}

proof fn lemma_select_none_indep(costs: Seq<usize>, s1: int, s2: int)
    ensures
        spec_select_from(costs, None, s1) == spec_select_from(costs, None, s2),
    decreases costs.len(),
{
    if costs.len() > 0 {
        lemma_select_none_indep(costs.drop_first(), s1 + costs[0], s2 + costs[0]);
        lemma_select_none_indep(costs.drop_first(), s1 + costs[0], s2);
    }
}

/// Pick the components a memory budget admits, in order.
#[verifier::loop_isolation(false)]
pub fn select_within_budget(costs: &Vec<usize>, limit: Option<usize>) -> (r: Vec<bool>)
    ensures
        r@ == spec_select(costs@, limit),
{
    let mut selected: Vec<bool> = Vec::new();
    let mut spent: usize = 0;
    let mut i: usize = 0;
    proof {
        assert(costs@.skip(0) =~= costs@);
    }
    while i < costs.len()
        invariant
            i <= costs@.len(),
            spent <= usize::MAX,
            selected@.len() == i,
            spec_select(costs@, limit) == selected@ + spec_select_from(
                costs@.skip(i as int),
                limit,
                spent as int,
            ),
        decreases costs@.len() - i,
    {
        let cost = costs[i];
        let take = match limit {
            None => true,
            Some(l) => cost <= l && spent <= l - cost,
        };
        proof {
            let rem = costs@.skip(i as int);
            assert(rem[0] == costs@[i as int]);
            assert(rem.drop_first() =~= costs@.skip(i as int + 1));
            assert(take == (match limit {
                None => true,
                Some(l) => spent + rem[0] <= l,
            }));
            assert(selected@ + (seq![take] + spec_select_from(
                costs@.skip(i as int + 1),
                limit,
                if take {
                    spent + rem[0]
                } else {
                    spent as int
                },
            )) =~= selected@.push(take) + spec_select_from(
                costs@.skip(i as int + 1),
                limit,
                if take {
                    spent + rem[0]
                } else {
                    spent as int
                },
            ));
        }
        selected.push(take);
        if take {
            match limit {
                Some(_) => {
                    spent = spent + cost;
                },
                None => {
                    proof {
                        lemma_select_none_indep(
                            costs@.skip(i as int + 1),
                            spent + cost,
                            spent as int,
                        );
                    }
                },
            }
        }
        i = i + 1;
    }
    proof {
        assert(costs@.skip(costs@.len() as int) =~= Seq::<usize>::empty());
        assert(selected@ + Seq::<bool>::empty() =~= selected@);
    }
    selected
}

/// A once-only guard for the whole preload pass.
pub struct PreloadGuard {
    /// Whether the preload pass already ran.
    pub completed: bool,
}

impl PreloadGuard {
    /// A guard that has not fired yet.
    pub fn new() -> (r: PreloadGuard)
        ensures
            !r.completed,
    {
        PreloadGuard { completed: false }
    }
}

/// The memory budget in bytes: the megabyte limit scaled, or no limit
/// when none was given or the scaling would overflow.
pub open spec fn spec_limit_bytes(memory_limit_mb: Option<usize>) -> Option<usize> {
    match memory_limit_mb {
        Some(mb) => {
            if mb <= usize::MAX as int / 1048576 {
                Some((mb * 1048576) as usize)
            } else {
                None
            }
        },
        None => None,
    }
}

proof fn lemma_select_from_len(costs: Seq<usize>, limit: Option<usize>, spent: int)
    ensures
        spec_select_from(costs, limit, spent).len() == costs.len(),
    decreases costs.len(),
{
    if costs.len() > 0 {
        let take = match limit {
            None => true,
            Some(l) => spent + costs[0] <= l,
        };
        lemma_select_from_len(
            costs.drop_first(),
            limit,
            if take {
                spent + costs[0]
            } else {
                spent
            },
        );
    }
}

/// Run the preload pass once: preloaders run in registration order,
/// skipping exactly those the memory budget refuses; the guard makes a
/// second pass a no-op. Returns the warm-up targets gathered from the
/// components that ran.
#[verifier::loop_isolation(false)]
pub fn preload_components(
    guard: &mut PreloadGuard,
    components: &mut Vec<Box<dyn Preloadable>>,
    memory_limit_mb: Option<usize>,
) -> (r: Vec<String>)
    ensures
        final(guard).completed,
        old(guard).completed ==> r@.len() == 0 && final(components)@ == old(components)@,
        old(components)@.len() == 0 ==> r@.len() == 0,
        !old(guard).completed ==> ({
            let costs = Seq::new(old(components)@.len(), |i: int| old(components)@[i].spec_cost());
            let sel = spec_select(costs, spec_limit_bytes(memory_limit_mb));
            &&& final(components)@.len() == old(components)@.len()
            &&& forall|i: int|
                0 <= i < sel.len() ==> ((#[trigger] sel[i])
                    ==> final(components)@[i].spec_preloaded()) && (!sel[i]
                    ==> final(components)@[i] == old(components)@[i])
        }),
{
    if guard.completed {
        return Vec::new();
    }
    guard.completed = true;
    let limit: Option<usize> = match memory_limit_mb {
        Some(mb) => {
            if mb <= usize::MAX / 1048576 {
                Some(mb * 1048576)
            } else {
                None
            }
        },
        None => None,
    };
    let ghost spec_costs = Seq::new(
        old(components)@.len(),
        |i: int| old(components)@[i].spec_cost(),
    );
    let mut costs: Vec<usize> = Vec::new();
    let mut i: usize = 0;
    while i < components.len()
        invariant
            i <= components@.len(),
            components@ == old(components)@,
            costs@.len() == i,
            forall|j: int| 0 <= j < i ==> #[trigger] costs@[j] == spec_costs[j],
        decreases components@.len() - i,
    {
        costs.push(components[i].estimated_memory());
        i = i + 1;
    }
    proof {
        assert(costs@ =~= spec_costs);
        assert(limit == spec_limit_bytes(memory_limit_mb));
    }
    let selected = select_within_budget(&costs, limit);
    proof {
        lemma_select_from_len(costs@, limit, 0);
    }
    let mut targets: Vec<String> = Vec::new();
    let mut j: usize = 0;
    let ghost sel = spec_select(spec_costs, spec_limit_bytes(memory_limit_mb));
    while j < components.len()
        invariant
            j <= components@.len(),
            components@.len() == old(components)@.len(),
            selected@ == sel,
            sel.len() == components@.len(),
            forall|k: int|
                0 <= k < components@.len() ==> ((j <= k || !sel[k])
                    ==> #[trigger] components@[k] == old(components)@[k]),
            forall|k: int|
                0 <= k < j && #[trigger] sel[k] ==> components@[k].spec_preloaded(),
            old(components)@.len() == 0 ==> targets@.len() == 0,
        decreases components@.len() - j,
    {
        if selected[j] {
            let mut work = components[j].preload();
            targets.append(&mut work);
        }
        j = j + 1;
    }
    targets
}

} // verus!
