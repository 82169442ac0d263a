pub mod csv_file;
