pub mod gds_file_types;
