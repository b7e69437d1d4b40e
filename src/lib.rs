//! Request routing and filter dispatch for a small HTTP server framework.
//!
//! The library decides, for each incoming `(method, path)` pair, which
//! endpoint handles it and with which captured path parameters, in what order
//! the registered filters run around it, and how sub-applications mounted
//! under a prefix see the request.
mod app;
mod chain;
mod logging;
mod pattern;
mod recognizer;
mod router;
mod session;
mod state;
mod static_files;
mod string_map;

pub use app::{lemma_mount_merge, merged_params, mount_pattern, App};
pub use chain::{lemma_chain_order, lemma_short_circuit, posts, pres, run, Cursor, Event, Step};
pub use logging::{response_level, Log, LogLevel};
pub use pattern::{
    ends_unnamed,
    lemma_valid_accepted,
    pattern_outcome,
    pattern_valid,
    plain_ascii,
    recognizer_pattern,
    shape,
    shape_of,
    validate_pattern,
    RouteError,
    MOUNT_REST,
    UNNAMED_REST,
};
pub use recognizer::{no_params, params_contents, recognized, recognizer_accepts, recognizer_routes};
pub use router::{
    handlers_below,
    has_shape,
    lemma_all_table_fallback,
    lemma_duplicate_all_refused,
    lemma_duplicate_refused,
    lemma_method_not_allowed,
    lemma_method_table_first,
    lemma_not_found,
    matched,
    recognizer_view,
    unnamed_renamed,
    RouteTable,
    RouteTarget,
    Router,
    RouterView,
    Target,
};
pub use session::{
    form_decoded,
    form_encoded,
    MemorySessionStore,
    Session,
};
pub use state::State;
pub use static_files::{components, is_absolute, join, walk, Resolved, StaticFiles};
pub use string_map::{pairs_map, pairs_view, StringMap};
