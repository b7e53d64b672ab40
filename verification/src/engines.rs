//! The interface of a storage engine.

use crate::error::Result;
use vstd::prelude::*;

verus! {

/// A key-value storage engine. A handle is cheap to clone and can be sent
/// to another thread; all clones share one store.
pub trait KvsEngine: Clone + Send + 'static {
    /// Sets the value of a key, overwriting any previous value.
    fn set(&self, key: String, value: String) -> Result<()>;

    /// The value of a key, `None` where the key is absent.
    fn get(&self, key: String) -> Result<Option<String>>;

    /// Removes a key; an error where the key is absent.
    fn remove(&self, key: String) -> Result<()>;
}

} // verus!
