use postbus::Response;

#[test]
fn fixed_replies() {
    assert_eq!("221 Goodbye!\r\n", Response::Goodbye.to_response());
    assert_eq!("250 Ok\r\n", Response::Okay.to_response());
    assert_eq!("354 Go ahead\r\n", Response::StartData.to_response());
    assert_eq!(
        "452 Too many recipients\r\n",
        Response::TooManyRecipients.to_response()
    );
    assert_eq!("500 Syntax error\r\n", Response::SyntaxError.to_response());
    assert_eq!(
        "503 Command out of sequence\r\n",
        Response::OutOfSequence.to_response()
    );
    assert_eq!(
        "504 Command not implemented\r\n",
        Response::NotImplemented.to_response()
    );
    assert_eq!(
        "550 User not local\r\n",
        Response::RecipientNotLocal.to_response()
    );
    assert_eq!(
        "554 No valid recipient\r\n",
        Response::InvalidRecipient.to_response()
    );
    assert_eq!(
        "554 Transaction failed\r\n",
        Response::TransactionFailed.to_response()
    );
}

#[test]
fn named_replies() {
    let name = "Postbus Demo".to_string();
    assert_eq!(
        "220 Postbus Demo ESMTP\r\n",
        Response::Greeting(name.clone()).to_response()
    );
    assert_eq!(
        "250 Postbus Demo ESMTP\r\n",
        Response::Helo(name.clone()).to_response()
    );
    assert_eq!(
        "250 Postbus Demo ESMTP\r\n",
        Response::Ehlo(name).to_response()
    );
    assert_eq!("220  ESMTP\r\n", Response::Greeting(String::new()).to_response());
}

#[test]
fn every_reply_ends_in_crlf() {
    let replies = vec![
        Response::Goodbye,
        Response::Okay,
        Response::StartData,
        Response::TooManyRecipients,
        Response::SyntaxError,
        Response::OutOfSequence,
        Response::NotImplemented,
        Response::RecipientNotLocal,
        Response::InvalidRecipient,
        Response::TransactionFailed,
        Response::Greeting("a".to_string()),
        Response::Helo("b".to_string()),
        Response::Ehlo("c".to_string()),
    ];
    for reply in replies {
        let wire = reply.to_response();
        assert!(wire.ends_with("\r\n"));
        assert_eq!(1, wire.matches('\n').count());
    }
}
