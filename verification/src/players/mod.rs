pub mod alphabeta;
pub mod dumb;
pub mod human;
pub mod negamax;

pub use self::alphabeta::AlphaBetaPlayer;
pub use self::dumb::DumbPlayer;
pub use self::human::Human;
pub use self::negamax::NegaMaxPlayer;
