use directio::open_options::DEFAULT_DIRECT_IO_BUFFER_SIZE;
use directio::OpenOptions;

#[test]
fn new_options_ask_for_nothing() {
    let opts = OpenOptions::new();
    assert!(!opts.read);
    assert!(!opts.write);
    assert!(!opts.append);
    assert!(!opts.truncate);
    assert!(!opts.create);
    assert!(!opts.create_new);
    assert_eq!(opts.direct_io_buffer_size, 0);
    assert_eq!(opts, OpenOptions::default());
    assert_eq!(opts.unix_custom_flags(), 0);
    assert_eq!(opts.windows_custom_flags(), 0);
}

#[test]
fn each_toggle_sets_its_own_field() {
    let blank = OpenOptions::new();
    let mut opts = OpenOptions::new();
    opts.read(true);
    assert_eq!(opts, OpenOptions { read: true, ..blank });
    let mut opts = OpenOptions::new();
    opts.write(true);
    assert_eq!(opts, OpenOptions { write: true, ..blank });
    let mut opts = OpenOptions::new();
    opts.append(true);
    assert_eq!(opts, OpenOptions { append: true, ..blank });
    let mut opts = OpenOptions::new();
    opts.truncate(true);
    assert_eq!(opts, OpenOptions { truncate: true, ..blank });
    let mut opts = OpenOptions::new();
    opts.create(true);
    assert_eq!(opts, OpenOptions { create: true, ..blank });
    let mut opts = OpenOptions::new();
    opts.create_new(true);
    assert_eq!(opts, OpenOptions { create_new: true, ..blank });
    let mut opts = OpenOptions::new();
    opts.direct_io(true);
    assert_eq!(opts, OpenOptions { direct_io_buffer_size: 4096, ..blank });
    assert_eq!(DEFAULT_DIRECT_IO_BUFFER_SIZE, 4096);
}

#[test]
fn toggles_chain_and_can_be_taken_back() {
    let mut opts = OpenOptions::new();
    opts.read(true).write(true).create(true).direct_io(true);
    assert!(opts.read && opts.write && opts.create);
    assert!(!opts.append && !opts.truncate && !opts.create_new);
    assert_eq!(opts.direct_io_buffer_size, 4096);
    opts.read(false).direct_io(false).direct_io_capacity(8192).append(true);
    assert!(!opts.read && opts.write && opts.append);
    assert_eq!(opts.direct_io_buffer_size, 8192);
    opts.direct_io_capacity(0);
    assert_eq!(opts.direct_io_buffer_size, 0);
}

#[test]
fn direct_io_asks_the_system_to_bypass_its_cache() {
    let mut opts = OpenOptions::new();
    assert_eq!(opts.unix_custom_flags(), 0);
    assert_eq!(opts.windows_custom_flags(), 0);
    opts.direct_io(true);
    assert_eq!(opts.unix_custom_flags(), libc::O_DIRECT);
    assert_ne!(opts.unix_custom_flags(), 0);
    assert_eq!(opts.windows_custom_flags(), 0x2000_0000);
    assert_eq!(
        opts.windows_custom_flags(),
        windows_sys::Win32::Storage::FileSystem::FILE_FLAG_NO_BUFFERING
    );
    opts.direct_io_capacity(512);
    assert_eq!(opts.unix_custom_flags(), libc::O_DIRECT);
    assert_eq!(opts.windows_custom_flags(), 0x2000_0000);
    opts.direct_io(false);
    assert_eq!(opts.unix_custom_flags(), 0);
    assert_eq!(opts.windows_custom_flags(), 0);
}
