pub mod ascii;
pub mod decimal;
pub mod eval;
pub mod fsm;
pub mod lexer;
pub mod number_fsm;
pub mod parser;

pub use eval::EvalContext;
pub use fsm::FSM;
pub use lexer::Lexer;
pub use parser::Parser;
