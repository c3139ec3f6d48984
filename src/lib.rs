//! A minesweeper board engine: mine placement with a safe first square,
//! neighbour counting, single reveals, flood-fill cascades, chording,
//! flagging, and win / loss detection.

pub mod enums;
pub mod minesweeper;
pub mod model;
pub mod lemmas;
pub mod laws;
