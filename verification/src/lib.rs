//! Scalar functions of the Spark SQL dialect over columns, with their
//! behaviour proved.
//!
//! [`registry::create_spark_ext_function`] resolves an identifier to an
//! entry of the fixed catalogue, and [`registry::SparkExtFunction::invoke`]
//! runs an entry on one batch of columns. Each entry is also a function of
//! its own in the `spark_*` modules. Every function states, over the
//! mathematical model of its columns, the value of each row, when a row is
//! null, and on which inputs the call fails and how.

pub mod bytes;
pub mod column;
pub mod decimal;
pub mod digits;
pub mod error;
pub mod invoke;
pub mod json;
pub mod registry;
pub mod spark_check_overflow;
pub mod spark_get_json_object;
pub mod spark_make_array;
pub mod spark_make_decimal;
pub mod spark_murmur3_hash;
pub mod spark_null_if_zero;
pub mod spark_strings;
pub mod spark_unscaled_value;
pub mod text;
