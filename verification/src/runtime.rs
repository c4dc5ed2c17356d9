//! The runtimes that the background tasks run on, and how many worker
//! threads each of them gets.

use vstd::prelude::*;

verus! {

/// The runtimes of a process, one for each kind of work.
#[derive(Hash, Eq, PartialEq, Clone, Copy, Debug, Structural)]
pub enum ZRuntime {
    /// Transmission.
    TX,
    /// Reception.
    RX,
    /// Accepting sessions.
    Accept,
    /// The application's callbacks.
    Application,
    /// Network tasks.
    Net,
}

/// The number of worker threads of each runtime.
#[derive(Clone, Copy, Debug, PartialEq, Eq, Structural)]
pub struct ZRuntimeConfig {
    pub tx_threads: usize,
    pub rx_threads: usize,
    pub accept_threads: usize,
    pub application_threads: usize,
    pub net_threads: usize,
}

impl Default for ZRuntimeConfig {
    /// Two worker threads for every runtime.
    fn default() -> (config: Self)
        ensures
            config == (ZRuntimeConfig {
                tx_threads: 2,
                rx_threads: 2,
                accept_threads: 2,
                application_threads: 2,
                net_threads: 2,
            }),
    {
        Self {
            tx_threads: 2,
            rx_threads: 2,
            accept_threads: 2,
            application_threads: 2,
            net_threads: 2,
        }
    }
}

/// The number of worker threads that `config` gives to `runtime`.
pub open spec fn threads_of(runtime: ZRuntime, config: ZRuntimeConfig) -> usize {
    match runtime {
        ZRuntime::TX => config.tx_threads,
        ZRuntime::RX => config.rx_threads,
        ZRuntime::Accept => config.accept_threads,
        ZRuntime::Application => config.application_threads,
        ZRuntime::Net => config.net_threads,
    }
}

/// The name of a runtime; the names of its threads begin with it.
pub open spec fn name_of(runtime: ZRuntime) -> Seq<char> {
    match runtime {
        ZRuntime::TX => seq!['T', 'X'],
        ZRuntime::RX => seq!['R', 'X'],
        ZRuntime::Accept => seq!['A', 'c', 'c', 'e', 'p', 't'],
        ZRuntime::Application => seq!['A', 'p', 'p', 'l', 'i', 'c', 'a', 't', 'i', 'o', 'n'],
        ZRuntime::Net => seq!['N', 'e', 't'],
    }
}

impl ZRuntime {
    /// All runtimes, in the order in which they are set up.
    pub fn iter() -> (all: Vec<ZRuntime>)
        ensures
            all@ == seq![
                ZRuntime::TX,
                ZRuntime::RX,
                ZRuntime::Accept,
                ZRuntime::Application,
                ZRuntime::Net,
            ],
    {
        let mut all: Vec<ZRuntime> = Vec::new();
        all.push(ZRuntime::TX);
        all.push(ZRuntime::RX);
        all.push(ZRuntime::Accept);
        all.push(ZRuntime::Application);
        all.push(ZRuntime::Net);
        assert(all@ =~= seq![
            ZRuntime::TX,
            ZRuntime::RX,
            ZRuntime::Accept,
            ZRuntime::Application,
            ZRuntime::Net,
        ]);
        all
    }

    /// The number of worker threads that this runtime is set up with.
    pub fn worker_threads(&self, config: &ZRuntimeConfig) -> (threads: usize)
        ensures
            threads == threads_of(*self, *config),
    {
        match self {
            ZRuntime::TX => config.tx_threads,
            ZRuntime::RX => config.rx_threads,
            ZRuntime::Accept => config.accept_threads,
            ZRuntime::Application => config.application_threads,
            ZRuntime::Net => config.net_threads,
        }
    }

    /// The name of this runtime.
    pub fn name(&self) -> (name: &'static str)
        ensures
            name@ == name_of(*self),
    {
        proof {
            reveal_strlit("TX");
            reveal_strlit("RX");
            reveal_strlit("Accept");
            reveal_strlit("Application");
            reveal_strlit("Net");
        }
        let name = match self {
            ZRuntime::TX => "TX",
            ZRuntime::RX => "RX",
            ZRuntime::Accept => "Accept",
            ZRuntime::Application => "Application",
            ZRuntime::Net => "Net",
        };
        assert(name@ =~= name_of(*self));
        name
    }
}

} // verus!
