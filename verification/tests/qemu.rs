use duke::qemu::ExitCode;

#[test]
fn sucesso_vira_33_no_hospedeiro() {
    assert_eq!(ExitCode::Success.valor(), 0x10);
    assert_eq!(ExitCode::Success.no_hospedeiro(), 33);
}

#[test]
fn falha_vira_35_no_hospedeiro() {
    assert_eq!(ExitCode::Failed.valor(), 0x11);
    assert_eq!(ExitCode::Failed.no_hospedeiro(), 35);
}
