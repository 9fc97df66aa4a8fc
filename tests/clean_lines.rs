use lineman::normalize::clean_lines;

#[test]
fn clean_lines_with_trailing_spaces() {
    let input_lines = [
        "def main():   \n",
        "    print(\"Hello World\")    \n",
        "    \n",
        "if __name__ == \"__main__\":    \n",
        "    main()    \n",
    ];

    let expected_output_lines = [
        "def main():\n",
        "    print(\"Hello World\")\n",
        "\n",
        "if __name__ == \"__main__\":\n",
        "    main()\n",
    ];

    let (output_lines, lines_have_changes) = clean_lines(&input_lines, true);

    assert_eq!(expected_output_lines.to_vec(), output_lines);
    assert_eq!(lines_have_changes, true);
}

#[test]
fn clean_lines_with_trailing_tabs() {
    let input_lines = [
        "def main():\t\n",
        "    print(\"Hello World\")\t\n",
        "\t\n",
        "if __name__ == \"__main__\":\t\n",
        "    main()\t\n",
    ];

    let expected_output_lines = [
        "def main():\n",
        "    print(\"Hello World\")\n",
        "\n",
        "if __name__ == \"__main__\":\n",
        "    main()\n",
    ];

    let (output_lines, lines_have_changes) = clean_lines(&input_lines, true);

    assert_eq!(expected_output_lines.to_vec(), output_lines);
    assert_eq!(lines_have_changes, true);
}

#[test]
fn add_newline_to_end_of_file() {
    let input_lines = [
        "def main():\n",
        "    print(\"Hello World\")\n",
        "\n",
        "if __name__ == \"__main__\":\n",
        "    main()",
    ];

    let expected_output_lines = [
        "def main():\n",
        "    print(\"Hello World\")\n",
        "\n",
        "if __name__ == \"__main__\":\n",
        "    main()\n",
    ];

    let (output_lines, lines_have_changes) = clean_lines(&input_lines, true);

    assert_eq!(expected_output_lines.to_vec(), output_lines);
    assert_eq!(lines_have_changes, true);
}

#[test]
fn do_not_add_newline_to_end_of_file() {
    let input_lines = [
        "def main():\n",
        "    print(\"Hello World\")\n",
        "\n",
        "if __name__ == \"__main__\":\n",
        "    main()",
    ];

    let expected_output_lines = [
        "def main():\n",
        "    print(\"Hello World\")\n",
        "\n",
        "if __name__ == \"__main__\":\n",
        "    main()",
    ];

    let (output_lines, lines_have_changes) = clean_lines(&input_lines, false);

    assert_eq!(expected_output_lines.to_vec(), output_lines);
    assert_eq!(lines_have_changes, false);
}

#[test]
fn remove_excessive_newlines_from_end_of_file() {
    let input_lines = [
        "def main():\n",
        "    print(\"Hello World\")\n",
        "\n",
        "if __name__ == \"__main__\":\n",
        "    main()\n",
        "\n",
        "\n",
        "\n",
    ];

    let expected_output_lines = [
        "def main():\n",
        "    print(\"Hello World\")\n",
        "\n",
        "if __name__ == \"__main__\":\n",
        "    main()\n",
    ];

    let (output_lines, lines_have_changes) = clean_lines(&input_lines, true);

    assert_eq!(expected_output_lines.to_vec(), output_lines);
    assert_eq!(lines_have_changes, true);
}

#[test]
fn do_not_remove_excessive_newlines_from_end_of_file() {
    let input_lines = [
        "def main():\n",
        "    print(\"Hello World\")\n",
        "\n",
        "if __name__ == \"__main__\":\n",
        "    main()\n",
        "\n",
        "\n",
        "\n",
    ];

    let expected_output_lines = [
        "def main():\n",
        "    print(\"Hello World\")\n",
        "\n",
        "if __name__ == \"__main__\":\n",
        "    main()\n",
        "\n",
        "\n",
        "\n",
    ];

    let (output_lines, lines_have_changes) = clean_lines(&input_lines, false);

    assert_eq!(expected_output_lines.to_vec(), output_lines);
    assert_eq!(lines_have_changes, false);
}
