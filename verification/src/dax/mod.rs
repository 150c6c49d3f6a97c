pub mod could_not_obtain_dax_device_statistic_error;
pub mod device_dax_statistic;
pub mod device_numbers;
