use netcfg_cache::parse_net_view;

const LISTING: &str = "Shared resources at \\\\192.168.2.133\r\n\r\n\r\n\r\nShare name  Type  Used as  Comment\r\n\r\n-------------------------------------------------------------------------------\r\nMedia       Disk           Photos and music\r\nPrinter     Print          Office laser\r\nshared      Disk\r\nIPC$        IPC            Remote IPC\r\nThe command completed successfully.\r\n\r\n";

#[test]
fn net_view_listing_yields_each_share() {
    let shares = parse_net_view("192.168.2.133", LISTING);
    assert_eq!(shares.len(), 4);
    assert_eq!(shares[0].name, "Media");
    assert_eq!(shares[0].description, "Photos and music");
    assert_eq!(shares[0].path, "\\\\192.168.2.133\\Media");
    assert_eq!(shares[1].name, "Printer");
    assert_eq!(shares[1].description, "Office laser");
    assert_eq!(shares[2].name, "shared");
    assert_eq!(shares[2].description, "");
    assert_eq!(shares[3].name, "IPC$");
    assert_eq!(shares[3].description, "Remote IPC");
}

#[test]
fn lines_before_the_rule_are_ignored() {
    let text = "Media       Disk           before rule\nShare name  Type\n---\nDocs  Disk  After\n";
    let shares = parse_net_view("srv", text);
    assert_eq!(shares.len(), 1);
    assert_eq!(shares[0].name, "Docs");
    assert_eq!(shares[0].description, "After");
    assert_eq!(shares[0].path, "\\\\srv\\Docs");
}

#[test]
fn box_drawing_rule_also_starts_the_list() {
    let text = "\u{2500}\u{2500}\u{2500}\u{2500}\nData  Disk  Team files";
    let shares = parse_net_view("nas", text);
    assert_eq!(shares.len(), 1);
    assert_eq!(shares[0].name, "Data");
    assert_eq!(shares[0].description, "Team files");
}

#[test]
fn line_without_type_column_is_split_at_double_spaces() {
    let text = "---\nMusic  Other  Old  rips\nSolo\n";
    let shares = parse_net_view("h", text);
    assert_eq!(shares.len(), 2);
    assert_eq!(shares[0].name, "Music");
    assert_eq!(shares[0].description, "Old rips");
    assert_eq!(shares[1].name, "Solo");
    assert_eq!(shares[1].description, "");
}

#[test]
fn empty_output_lists_nothing() {
    assert!(parse_net_view("h", "").is_empty());
    assert!(parse_net_view("h", "There are no entries in the list.\n").is_empty());
}
