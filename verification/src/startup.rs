//! Startup orchestration: critical-path initialization and lazy
//! components.
//!
//! Critical components initialize eagerly during the cold path, in
//! registration order. Everything else sits behind a lazy container
//! that runs its initializer at most once, on first use; a conditional
//! container consults a predicate before initializing at all.

use vstd::prelude::*;

verus! {

/// A component that must be initialized during the cold path.
pub trait CriticalInitialization {
    /// Perform the critical initialization.
    fn initialize(&self);

    /// The component's name.
    fn name(&self) -> &'static str;
}

/// A value initialized at most once, on first use.
#[verifier::reject_recursive_types(T)]
#[verifier::reject_recursive_types(F)]
pub struct Lazy<T, F> where F: FnOnce() -> T {
    /// The component name.
    pub name: &'static str,
    /// The initializer, until it runs.
    pub init: Option<F>,
    /// The value, once initialized.
    pub value: Option<T>,
}

impl<T, F> Lazy<T, F> where F: FnOnce() -> T {
    /// The container either still holds its initializer (callable) or
    /// already holds the value, never both.
    pub open spec fn wf(&self) -> bool {
        &&& (self.init is Some <==> self.value is None)
        &&& (self.init matches Some(f) ==> f.requires(()))
    }

    /// A lazy container holding an initializer.
    pub fn new(name: &'static str, init: F) -> (r: Lazy<T, F>)
        requires
            init.requires(()),
        ensures
            r.wf(),
            r.value is None,
            r.name == name,
    {
        Lazy { name, init: Some(init), value: None }
    }

    /// Whether the value has been initialized.
    pub fn is_initialized(&self) -> (r: bool)
        ensures
            r == (self.value is Some),
    {
        self.value.is_some()
    }

    /// Run the initializer if it has not run, and lend out the value.
    pub fn initialize(&mut self) -> (r: &T)
        requires
            old(self).wf(),
        ensures
            final(self).wf(),
            final(self).value is Some,
            final(self).name == old(self).name,
            old(self).value is Some ==> *final(self) == *old(self),
            old(self).value is None ==> (old(self).init matches Some(f) && f.ensures(
                (),
                final(self).value.unwrap(),
            )),
            *r == final(self).value.unwrap(),
    {
        if self.value.is_none() {
            let f = self.init.take().unwrap();
            let v = f();
            self.value = Some(v);
        }
        match &self.value {
            Some(v) => v,
            None => unreached(),
        }
    }

    /// Lend out the value, initializing it on first use.
    pub fn get(&mut self) -> (r: &T)
        requires
            old(self).wf(),
        ensures
            final(self).wf(),
            final(self).value is Some,
            final(self).name == old(self).name,
            old(self).value is Some ==> *final(self) == *old(self),
            old(self).value is None ==> (old(self).init matches Some(f) && f.ensures(
                (),
                final(self).value.unwrap(),
            )),
            *r == final(self).value.unwrap(),
    {
        self.initialize()
    }
}

/// A value initialized only when its predicate allows it.
#[verifier::reject_recursive_types(T)]
#[verifier::reject_recursive_types(F)]
#[verifier::reject_recursive_types(P)]
pub struct ConditionalLazy<T, F, P> where F: FnOnce() -> T, P: Fn() -> bool {
    /// The guarded lazy container.
    pub inner: Lazy<T, F>,
    /// The predicate deciding whether to initialize.
    pub predicate: P,
    /// Whether the predicate has been consulted.
    pub evaluated: bool,
    /// What the predicate answered, once consulted.
    pub allowed: bool,
}

impl<T, F, P> ConditionalLazy<T, F, P> where F: FnOnce() -> T, P: Fn() -> bool {
    /// Well-formedness of the inner container and predicate.
    pub open spec fn wf(&self) -> bool {
        &&& self.inner.wf()
        &&& self.predicate.requires(())
        &&& (!self.evaluated ==> self.inner.value is None)
    }

    /// A conditional container holding an initializer and a predicate.
    pub fn new(name: &'static str, init: F, predicate: P) -> (r: ConditionalLazy<T, F, P>)
        requires
            init.requires(()),
            predicate.requires(()),
        ensures
            r.wf(),
            !r.evaluated,
            r.inner.value is None,
    {
        ConditionalLazy { inner: Lazy::new(name, init), predicate, evaluated: false, allowed: false }
    }

    /// The value if the predicate allows initialization, otherwise
    /// nothing. The predicate is consulted once, on the first call.
    pub fn get(&mut self) -> (r: Option<&T>)
        requires
            old(self).wf(),
        ensures
            final(self).wf(),
            final(self).evaluated,
            r is Some ==> final(self).inner.value is Some,
            old(self).inner.value is None && r is Some ==> (old(self).inner.init matches Some(f)
                && f.ensures((), final(self).inner.value.unwrap())),
    {
        if !self.evaluated {
            let should_init = (self.predicate)();
            self.evaluated = true;
            self.allowed = should_init;
            if should_init {
                return Some(self.inner.initialize());
            } else {
                return None;
            }
        }
        if self.inner.is_initialized() {
            Some(self.inner.get())
        } else {
            None
        }
    }

    /// Initialize regardless of the predicate and lend out the value.
    pub fn force_initialize(&mut self) -> (r: &T)
        requires
            old(self).wf(),
        ensures
            final(self).wf(),
            final(self).evaluated,
            final(self).inner.value is Some,
            old(self).inner.value is None ==> (old(self).inner.init matches Some(f) && f.ensures(
                (),
                final(self).inner.value.unwrap(),
            )),
            *r == final(self).inner.value.unwrap(),
    {
        self.evaluated = true;
        self.allowed = true;
        self.inner.initialize()
    }
}

/// The startup optimizer: eager critical components in order, and the
/// names of the lazy ones for reporting.
pub struct StartupOptimizer {
    /// The critical components, in registration order.
    pub critical_components: Vec<Box<dyn CriticalInitialization>>,
    /// Names of registered lazy components.
    pub lazy_names: Vec<&'static str>,
    /// Whether detailed timing is logged.
    pub log_timing: bool,
    /// When the optimizer was created, in milliseconds since the epoch.
    pub start_ms: u64,
}

/// Relies on `std::time::SystemTime::now`: the wall clock in
/// milliseconds since the epoch; nothing is promised of its value.
#[verifier::external_body]
fn clock_millis() -> u64 {
    match std::time::SystemTime::now().duration_since(std::time::SystemTime::UNIX_EPOCH) {
        Ok(d) => d.as_millis() as u64,
        Err(_) => 0,
    }
}

impl StartupOptimizer {
    /// An optimizer with no components.
    pub fn new() -> (r: StartupOptimizer)
        ensures
            r.critical_components@.len() == 0,
            r.lazy_names@.len() == 0,
            !r.log_timing,
    {
        StartupOptimizer {
            critical_components: Vec::new(),
            lazy_names: Vec::new(),
            log_timing: false,
            start_ms: clock_millis(),
        }
    }

    /// Register a critical component; it will initialize eagerly, after
    /// those registered before it.
    pub fn add_critical(&mut self, component: Box<dyn CriticalInitialization>)
        ensures
            final(self).critical_components@ == old(self).critical_components@.push(component),
            final(self).lazy_names@ == old(self).lazy_names@,
    {
        self.critical_components.push(component);
    }

    /// Record a lazy component's name; its initialization stays where
    /// the component lives and runs on first use.
    pub fn add_lazy_name(&mut self, name: &'static str)
        ensures
            final(self).lazy_names@ == old(self).lazy_names@.push(name),
            final(self).critical_components@.len() == old(self).critical_components@.len(),
    {
        self.lazy_names.push(name);
    }

    /// Enable or disable detailed timing logs.
    pub fn with_timing_logs(self, enable: bool) -> (r: StartupOptimizer)
        ensures
            r.log_timing == enable,
            r.critical_components@.len() == self.critical_components@.len(),
            r.lazy_names@ == self.lazy_names@,
    {
        StartupOptimizer {
            critical_components: self.critical_components,
            lazy_names: self.lazy_names,
            log_timing: enable,
            start_ms: self.start_ms,
        }
    }

    /// Initialize every critical component, in registration order.
    pub fn initialize_critical(&self) {
        let mut i: usize = 0;
        while i < self.critical_components.len()
            decreases self.critical_components@.len() - i,
        {
            self.critical_components[i].initialize();
            i = i + 1;
        }
    }

    /// Milliseconds elapsed since the optimizer was created.
    pub fn cold_start_duration(&self) -> (r: u64) {
        let now = clock_millis();
        if now >= self.start_ms {
            now - self.start_ms
        } else {
            0
        }
    }
}

} // verus!
