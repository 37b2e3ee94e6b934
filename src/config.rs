use vstd::prelude::*;

verus! {

/// Byte limit used in place of a limit of 0.
pub const DEFAULT_MAX_BYTES: usize = 1024;

/// Limits of each segment, and the offset of the first record of a new log.
#[derive(Debug, Clone, Copy, PartialEq, Eq, Structural)]
pub struct Config {
    pub max_store_bytes: usize,
    pub max_index_bytes: usize,
    pub initial_offset: u64,
}

impl Config {
    pub fn new(max_store_bytes: usize, max_index_bytes: usize, initial_offset: u64) -> (r: Config)
        ensures
            r == (Config { max_store_bytes, max_index_bytes, initial_offset }),
    {
        Config { max_store_bytes, max_index_bytes, initial_offset }
    }

    /// This configuration with each byte limit of 0 replaced by the default.
    pub open spec fn defaulted(self) -> Config {
        Config {
            max_store_bytes: if self.max_store_bytes == 0 {
                DEFAULT_MAX_BYTES
            } else {
                self.max_store_bytes
            },
            max_index_bytes: if self.max_index_bytes == 0 {
                DEFAULT_MAX_BYTES
            } else {
                self.max_index_bytes
            },
            initial_offset: self.initial_offset,
        }
    }

    pub fn with_defaults(self) -> (r: Config)
        ensures
            r == self.defaulted(),
    {
        let mut c = self;
        if c.max_store_bytes == 0 {
            c.max_store_bytes = DEFAULT_MAX_BYTES;
        }
        if c.max_index_bytes == 0 {
            c.max_index_bytes = DEFAULT_MAX_BYTES;
        }
        c
    }
}

} // verus!
