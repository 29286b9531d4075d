//! The current UTC date and time as `DD-MM-YYYY HH:MM:SS` text.
mod clock;
mod text;
mod timestamp;

pub use clock::{current_timestamp, format_timestamp, get_current_datetime};
pub use text::{
    decimal, digit_char, digit_value, has_layout, is_digit, lemma_decimal,
    lemma_decimal_injective, lemma_text_fields, lemma_text_injective, lemma_text_layout, pow10,
    value_of, year_text,
};
pub use timestamp::{days_in_month, is_leap_year, Timestamp, FIRST_YEAR, LAST_YEAR};
