pub mod enzip;
pub mod paths;
pub mod unzip;
