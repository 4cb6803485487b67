pub mod approve;
pub mod buy;
pub mod claim;
pub mod draw;
pub mod reject;
pub mod set_config;
pub mod withdraw;

pub use approve::approve;
pub use buy::{buy, buy_seed, require_valid_numbers, sender_buy_seed, take_payment, BuyResponse};
pub use claim::claim;
pub use draw::{
    draw, end_draw, process_next_page, process_next_ticket_batch, reset_round_state, CallbackMsg,
    DrawAction, DrawEnv, DrawResponse,
};
pub use reject::reject;
pub use set_config::set_config;
pub use withdraw::withdraw;
