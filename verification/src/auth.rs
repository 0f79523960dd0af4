//! Where tokens and clients are kept.

use crate::error::{AtomicCoreError, ErrorView};
use vstd::prelude::*;

verus! {

/// Where something is kept that belongs to the server as a whole.
#[derive(Debug, Clone, Copy, PartialEq, Eq, Structural)]
pub enum ServerStore {
    Registry,
    Storage,
}

/// Tokens are kept in the registry, if there is one, else in the storage.
pub fn token_store(has_registry: bool) -> (r: ServerStore)
    ensures
        r == if has_registry {
            ServerStore::Registry
        } else {
            ServerStore::Storage
        },
{
    if has_registry {
        ServerStore::Registry
    } else {
        ServerStore::Storage
    }
}

/// What a request to OAuth is answered when there is no place for it.
pub fn oauth_unavailable() -> (e: AtomicCoreError)
    ensures
        e@ == ErrorView::Configuration(
            "OAuth is unavailable: no SQLite registry is attached and the storage backend does not support OAuth"@,
        ),
{
    AtomicCoreError::Configuration(
        "OAuth is unavailable: no SQLite registry is attached and the storage backend does not support OAuth".to_owned(),
    )
}

/// OAuth clients and codes are kept in the registry, if there is one, else in the storage if it
/// can hold them.
pub fn oauth_store(has_registry: bool, storage_has_oauth: bool) -> (r: Result<
    ServerStore,
    AtomicCoreError,
>)
    ensures
        match r {
            Ok(ServerStore::Registry) => has_registry,
            Ok(ServerStore::Storage) => !has_registry && storage_has_oauth,
            Err(e) => !has_registry && !storage_has_oauth && e@ == ErrorView::Configuration(
                "OAuth is unavailable: no SQLite registry is attached and the storage backend does not support OAuth"@,
            ),
        },
{
    if has_registry {
        Ok(ServerStore::Registry)
    } else if storage_has_oauth {
        Ok(ServerStore::Storage)
    } else {
        Err(oauth_unavailable())
    }
}

/// What belongs to the server as a whole is kept in the registry wherever there is one; without one
/// tokens go to the storage, and OAuth too if the storage can hold it.
pub proof fn law_registries_keep_what_is_the_servers(
    has_registry: bool,
    storage_has_oauth: bool,
    tokens: ServerStore,
    oauth: Result<ServerStore, AtomicCoreError>,
)
    requires
        call_ensures(token_store, (has_registry,), tokens),
        call_ensures(oauth_store, (has_registry, storage_has_oauth), oauth),
    ensures
        tokens == ServerStore::Registry <==> has_registry,
        has_registry ==> oauth == Ok::<ServerStore, AtomicCoreError>(ServerStore::Registry),
        !has_registry && storage_has_oauth ==> oauth == Ok::<ServerStore, AtomicCoreError>(
            ServerStore::Storage,
        ),
        oauth is Err <==> !has_registry && !storage_has_oauth,
{
}

} // verus!
