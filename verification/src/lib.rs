//! A departures board for two transit providers: a bus network queried per
//! route and stop, and a rail network queried per station. The library holds
//! everything the program decides or computes — joining predictions to trips,
//! parsing timestamps and minutes fields, calendar arithmetic, and the final
//! line formatting — with a contract on each function. Fetching over HTTP and
//! decoding JSON stay outside, in the binary around the library.

pub mod clock;
pub mod datetime;
pub mod parse;
pub mod records;
pub mod render;
