//! The connection pool lifecycle: three independent pools — relational
//! store, key-value cache, message broker — each built once at startup
//! with its own sizing and timeouts, then shared read-only. A checkout
//! under exhaustion waits no longer than the configured timeout and then
//! fails, rather than hanging; a returned connection becomes available
//! again at once.

use vstd::prelude::*;

verus! {

/// Sizing and timeouts a pool is built with; fixed process-wide.
#[derive(Clone, Copy, PartialEq, Eq, Structural)]
pub struct PoolConfig {
    /// Idle connections retained (and opened eagerly at startup).
    pub min_idle: u64,
    /// Concurrently open connections at most.
    pub max_size: u64,
    /// Seconds a checkout may wait before failing.
    pub wait_timeout_secs: u64,
    /// Seconds allowed for opening a new connection.
    pub create_timeout_secs: u64,
    /// Seconds allowed for recycling a connection after structural failure.
    pub recycle_timeout_secs: u64,
}

/// The relational store's pool: 5 to 50 connections.
pub fn relational_pool_config() -> (c: PoolConfig)
    ensures
        c == (PoolConfig {
            min_idle: 5,
            max_size: 50,
            wait_timeout_secs: 30,
            create_timeout_secs: 30,
            recycle_timeout_secs: 30,
        }),
{
    PoolConfig {
        min_idle: 5,
        max_size: 50,
        wait_timeout_secs: 30,
        create_timeout_secs: 30,
        recycle_timeout_secs: 30,
    }
}

/// The key-value cache's pool: 5 idle minimum, 50 connections at most.
pub fn key_value_pool_config() -> (c: PoolConfig)
    ensures
        c == (PoolConfig {
            min_idle: 5,
            max_size: 50,
            wait_timeout_secs: 30,
            create_timeout_secs: 30,
            recycle_timeout_secs: 30,
        }),
{
    PoolConfig {
        min_idle: 5,
        max_size: 50,
        wait_timeout_secs: 30,
        create_timeout_secs: 30,
        recycle_timeout_secs: 30,
    }
}

/// The message broker's pool: at most 15 connections, with wait, create
/// and recycle timeouts of 60 seconds each.
pub fn broker_pool_config() -> (c: PoolConfig)
    ensures
        c == (PoolConfig {
            min_idle: 0,
            max_size: 15,
            wait_timeout_secs: 60,
            create_timeout_secs: 60,
            recycle_timeout_secs: 60,
        }),
{
    PoolConfig {
        min_idle: 0,
        max_size: 15,
        wait_timeout_secs: 60,
        create_timeout_secs: 60,
        recycle_timeout_secs: 60,
    }
}

/// A checked-out handle, owned by one caller for the duration of one
/// operation and given back to its pool on completion or error.
#[derive(Debug)]
pub struct PooledConnection {}

/// A checkout found every connection of the pool already out, and the
/// wait timeout elapsed before any was returned.
#[derive(Debug)]
pub struct PoolExhausted {}

/// A bounded set of reusable connections to one backing store.
pub struct Pool {
    pub config: PoolConfig,
    pub in_use: u64,
}

impl Pool {
    /// The pool never hands out more connections than its maximum size.
    pub open spec fn wf(&self) -> bool {
        self.in_use <= self.config.max_size
    }

    pub open spec fn config(&self) -> PoolConfig {
        self.config
    }

    pub open spec fn in_use(&self) -> u64 {
        self.in_use
    }

    /// Whether a checkout can still be served.
    pub open spec fn has_capacity(&self) -> bool {
        self.in_use < self.config.max_size
    }

    /// Builds a pool from its configuration. Nothing is checked out yet.
    pub fn build(config: PoolConfig) -> (pool: Pool)
        ensures
            pool.wf(),
            pool.config() == config,
            pool.in_use() == 0,
    {
        Pool { config, in_use: 0 }
    }

    /// Checks a connection out. Succeeds exactly when the pool is below
    /// its maximum size; a caller at the limit gets `PoolExhausted` after
    /// the wait timeout instead of blocking forever.
    pub fn checkout(&mut self) -> (r: Result<PooledConnection, PoolExhausted>)
        requires
            old(self).wf(),
        ensures
            final(self).wf(),
            final(self).config() == old(self).config(),
            r is Ok <==> old(self).has_capacity(),
            r is Ok ==> final(self).in_use() == old(self).in_use() + 1,
            r is Err ==> *final(self) == *old(self),
    {
        if self.in_use < self.config.max_size {
            self.in_use = self.in_use + 1;
            Ok(PooledConnection {})
        } else {
            Err(PoolExhausted {})
        }
    }

    /// Returns a connection, making its slot available again.
    pub fn checkin(&mut self, conn: PooledConnection)
        requires
            old(self).wf(),
            old(self).in_use() > 0,
        ensures
            final(self).wf(),
            final(self).config() == old(self).config(),
            final(self).in_use() == old(self).in_use() - 1,
    {
        let _ = conn;
        self.in_use = self.in_use - 1;
    }
}

} // verus!
