use vstd::prelude::*;

verus! {

/// Where a paged crawl of the upstream stands.
#[derive(Debug, Clone, Copy, PartialEq, Eq, Structural)]
pub struct PageCursor {
    pub offset: usize,
    pub consecutive_rate_limits: u32,
}

/// What a page request came back with.
#[derive(Debug, Clone, Copy, PartialEq, Eq, Structural)]
pub enum PageEvent {
    /// HTTP 429, with the `Retry-After` seconds when the header parsed.
    RateLimited { retry_after: Option<u64> },
    /// A page with this many items.
    Page { items: usize },
}

/// What the crawler does next.
#[derive(Debug, Clone, Copy, PartialEq, Eq, Structural)]
pub enum PageAction {
    /// Wait this many seconds, then ask for the same page again.
    Retry(u64),
    /// Ask for the page at this offset (after the throttle pause).
    Fetch(usize),
    /// The crawl is complete.
    Finish,
    /// Too many rate limits in a row: the crawl fails.
    Abort,
}

pub const PAGE_LIMIT: usize = 50;
pub const MAX_OFFSET: usize = 10000;
pub const MAX_RATE_LIMIT_RETRIES: u32 = 5;
pub const DEFAULT_RATE_LIMIT_WAIT_SECS: u64 = 3;
pub const THROTTLE_MILLIS: u64 = 250;

/// The crawl's next cursor and action after `ev`.
pub open spec fn page_step_spec(c: PageCursor, ev: PageEvent) -> (PageCursor, PageAction) {
    match ev {
        PageEvent::RateLimited { retry_after } => {
            let n = c.consecutive_rate_limits + 1;
            if n > MAX_RATE_LIMIT_RETRIES {
                (PageCursor { offset: c.offset, consecutive_rate_limits: n as u32 }, PageAction::Abort)
            } else {
                (
                    PageCursor { offset: c.offset, consecutive_rate_limits: n as u32 },
                    PageAction::Retry(
                        match retry_after {
                            Some(s) => s,
                            None => DEFAULT_RATE_LIMIT_WAIT_SECS,
                        },
                    ),
                )
            }
        },
        PageEvent::Page { items } => {
            let next = c.offset + PAGE_LIMIT;
            if items < PAGE_LIMIT || next >= MAX_OFFSET {
                (PageCursor { offset: c.offset, consecutive_rate_limits: 0 }, PageAction::Finish)
            } else {
                (PageCursor { offset: next as usize, consecutive_rate_limits: 0 }, PageAction::Fetch(next as usize))
            }
        },
    }
}

impl PageCursor {
    pub fn start() -> (r: Self)
        ensures
            r.offset == 0 && r.consecutive_rate_limits == 0,
    {
        PageCursor { offset: 0, consecutive_rate_limits: 0 }
    }

    /// Pagination rule shared by dataset discovery and field sync: pages of
    /// 50, stop at a short page or at offset 10 000, obey 429 with its
    /// `Retry-After` (3 s by default) and give up after 5 in a row.
    pub fn step(self, ev: PageEvent) -> (r: (PageCursor, PageAction))
        requires
            self.offset < MAX_OFFSET,
            self.consecutive_rate_limits <= MAX_RATE_LIMIT_RETRIES,
        ensures
            r == page_step_spec(self, ev),
            r.1 != PageAction::Abort ==> r.0.offset < MAX_OFFSET && r.0.consecutive_rate_limits <= MAX_RATE_LIMIT_RETRIES,
    {
        match ev {
            PageEvent::RateLimited { retry_after } => {
                let n = self.consecutive_rate_limits + 1;
                if n > MAX_RATE_LIMIT_RETRIES {
                    (PageCursor { offset: self.offset, consecutive_rate_limits: n }, PageAction::Abort)
                } else {
                    let wait = match retry_after {
                        Some(s) => s,
                        None => DEFAULT_RATE_LIMIT_WAIT_SECS,
                    };
                    (PageCursor { offset: self.offset, consecutive_rate_limits: n }, PageAction::Retry(wait))
                }
            },
            PageEvent::Page { items } => {
                let next = self.offset + PAGE_LIMIT;
                if items < PAGE_LIMIT || next >= MAX_OFFSET {
                    (PageCursor { offset: self.offset, consecutive_rate_limits: 0 }, PageAction::Finish)
                } else {
                    (PageCursor { offset: next, consecutive_rate_limits: 0 }, PageAction::Fetch(next))
                }
            },
        }
    }
}

/// Guard that lets one field sync run at a time.
pub struct SyncGuard {
    running: bool,
}

impl SyncGuard {
    pub closed spec fn is_running(&self) -> bool {
        self.running
    }

    pub fn new() -> (r: Self)
        ensures
            !r.is_running(),
    {
        SyncGuard { running: false }
    }

    /// Claims the guard: true when no sync was running (one is now), false
    /// when one already runs and this request must be ignored.
    pub fn try_start(&mut self) -> (r: bool)
        ensures
            r == !old(self).is_running(),
            final(self).is_running(),
    {
        if self.running {
            false
        } else {
            self.running = true;
            true
        }
    }

    /// Releases the guard when a sync ends.
    pub fn finish(&mut self)
        ensures
            !final(self).is_running(),
    {
        self.running = false;
    }

    pub fn running(&self) -> (r: bool)
        ensures
            r == self.is_running(),
    {
        self.running
    }
}

} // verus!
