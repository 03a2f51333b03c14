use babus::Bus;
use babus::ClientDomain;
use babus::Waiter;
use babus::rust_str_to_cstr;

#[allow(non_snake_case)]
#[test]
fn domain_openOrCreate_writeAndRead() {
    let mut bus = Bus::new();
    let cd = ClientDomain::open_or_create(&mut bus, "dom2");
    let cs = cd.get_slot(&mut bus, "mySlot");

    let data0 = vec![b'h', b'e', b'l', b'l', b'o', b'\0'];
    cs.write(&mut bus, &data0);

    let clv = cs.read(&bus);
    let data1 = clv.copy_to_vec();

    assert_eq!(data1, data0);

    cd.close(&mut bus);
}

#[allow(non_snake_case)]
#[test]
fn domain_openOrCreate_writeAndRead_once() {
    let mut bus = Bus::new();
    let cd = ClientDomain::open_or_create(&mut bus, "dom2");
    let cs = cd.get_slot(&mut bus, "mySlot");

    let data0 = vec![b'h', b'e', b'l', b'l', b'o', b'\0'];
    cs.write(&mut bus, &data0);

    let clv = cs.read(&bus);
    assert_eq!(clv.length(), data0.len());
    let data1 = clv.copy_to_vec();

    assert_eq!(data1, data0);

    cd.close(&mut bus);
}

#[allow(non_snake_case)]
#[test]
fn lib_domain_openOrCreate_writeAndRead_multipleTimes() {
    let mut bus = Bus::new();
    for i in 0u64..10u64 {
        let cd = ClientDomain::open_or_create(&mut bus, "domTest2");
        let cs = cd.get_slot(&mut bus, "mySlotTest2");

        let data0 = i;
        cs.write(&mut bus, &data0.to_le_bytes());

        let clv = cs.read(&bus);
        let n = clv.length();
        assert_eq!(n, 8);
        let bytes = clv.copy_to_vec();
        let data1 = u64::from_le_bytes(bytes.try_into().unwrap());

        assert_eq!(data1, data0);

        cd.close(&mut bus);
    }
}

#[allow(non_snake_case)]
#[test]
fn ffi_domain_openOrCreate_writeAndRead_multipleTimes() {
    let mut bus = Bus::new();
    for i in 0u64..10u64 {
        let cd = ClientDomain::open_or_create(&mut bus, "domTest2");
        let cs = cd.get_slot(&mut bus, "mySlotTest2");

        let data0 = i;
        cs.write(&mut bus, &data0.to_le_bytes());

        let clv = cs.read(&bus);
        assert_eq!(clv.length(), 8);
        let data1 = u64::from_le_bytes(clv.copy_to_vec().try_into().unwrap());

        assert_eq!(data1, data0);

        cd.close(&mut bus);
    }
}

#[allow(non_snake_case)]
#[test]
fn domain_waiter() {
    // One writer and one waiting reader over the same slot; the engine's
    // blocking wait alternates with writes, which here interleave as one
    // sequential schedule.
    let mut bus = Bus::new();
    let cd_w = ClientDomain::open_or_create(&mut bus, "domTest3");
    let cs_w = cd_w.get_slot(&mut bus, "mySlotTest3");

    let cd_r = ClientDomain::open_or_create(&mut bus, "domTest3");
    let cs_r = cd_r.get_slot(&mut bus, "mySlotTest3");

    let w = Waiter::allocate(&mut bus, &cd_r);
    w.subscribe_to(&mut bus, &cs_r, true);

    for i in 0u64..10u64 {
        cs_w.write(&mut bus, &i.to_le_bytes());

        // The wake is pending, so the blocking wait returns.
        assert!(w.wait_exclusive(&bus));
        let views = w.for_each_new_slot(&mut bus);
        assert_eq!(views.len(), 1);
        for clv in views {
            assert_eq!(clv.length(), 8);
            let got = u64::from_le_bytes(clv.copy_to_vec().try_into().unwrap());
            assert_eq!(got, i);
        }
    }

    w.free(&mut bus);
    cd_w.close(&mut bus);
    cd_r.close(&mut bus);
}

#[test]
fn str_to_cstr_appends_nul() {
    assert_eq!(rust_str_to_cstr("dom2"), "dom2\0");
    assert_eq!(rust_str_to_cstr(""), "\0");
}
