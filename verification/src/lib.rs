//! Rule engine and game state for an unbounded ("infinite") variant of
//! Klondike solitaire: a tableau of columns that grows without limit to the
//! right, a procedural card supply instead of a fixed 52-card deck, and an
//! unbounded row of foundation piles.
//!
//! The crate verifies the parts that carry the rules: card identity and the
//! pairwise stacking laws, ordered piles of cards, tableau columns with their
//! hidden/visible split, the foundation mapping, the grab/drop state machine,
//! and procedural board growth. Rendering, input decoding and the viewport
//! transform live outside the crate and hand in already-resolved indices.

pub mod board;
pub mod card;
pub mod column;
pub mod deal;
pub mod foundation;
pub mod session;
pub mod stack;

pub use board::Board;
pub use card::Card;
pub use card::Suit;
pub use column::Column;
pub use foundation::Foundations;
pub use session::Session;
pub use stack::Stack;
