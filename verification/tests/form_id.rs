use modmapper::form_id::get_local_form_id_and_master;

#[test]
fn form_id_with_master_in_range_names_that_master() {
    let masters = ["A.esm", "B.esm"];
    let decoded = get_local_form_id_and_master(0x01AB_CDEF, &masters, "Mine.esp");
    assert_eq!(decoded, Ok((0x00AB_CDEF, "B.esm")));
}

#[test]
fn form_id_with_master_out_of_range_names_the_plugin() {
    let masters = ["A.esm"];
    let decoded = get_local_form_id_and_master(0x0500_0001, &masters, "Mine.esp");
    assert_eq!(decoded, Ok((0x0000_0001, "Mine.esp")));
}

#[test]
fn form_id_with_index_equal_to_master_count_names_the_plugin() {
    let masters = ["A.esm", "B.esm"];
    let decoded = get_local_form_id_and_master(0x0200_0010, &masters, "Mine.esp");
    assert_eq!(decoded, Ok((0x10, "Mine.esp")));
}

#[test]
fn form_id_without_masters_names_the_plugin() {
    let masters: [&str; 0] = [];
    let decoded = get_local_form_id_and_master(0x00FF_FFFF, &masters, "Skyrim.esm");
    assert_eq!(decoded, Ok((0x00FF_FFFF, "Skyrim.esm")));
}

#[test]
fn form_id_largest_value_decodes() {
    let masters = ["A.esm"];
    let decoded = get_local_form_id_and_master(u32::MAX, &masters, "Mine.esp");
    assert_eq!(decoded, Ok((0x00FF_FFFF, "Mine.esp")));
}
