use wos_kernel::kernel_version;

#[test]
fn test_kernel_version() {
    assert_eq!(kernel_version(), "0.1.0");
}
