//! Jump labels for a text editor: finds the places in view that the cursor
//! can jump to, orders them by distance from the cursor, gives each a short
//! prefix-free key sequence, draws the keys as overlays and resolves the keys
//! the user types into a new cursor offset.
pub mod annotate;
pub mod labels;
pub mod locations;
pub mod order;
pub mod score;
pub mod session;
pub mod viewport;
